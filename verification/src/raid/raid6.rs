//! RAID 6: two parity blocks, the plain sum `p` and the sum `q` weighted by the powers of the generator `2`, over the field `GF(2^8)` defined by `0x11d`.

use vstd::prelude::*;
use vstd::slice::slice_to_vec;
use crate::poly::{exp2, bitlen, pxor, mulmod};
use crate::raid::{
    FieldParams, RaidError, Word, coef, parity, column, blocks_ok, block_ok, bad_has, completes, holds, views,
    format_parity, update_parity, accumulate_parity, repair_array, copy_words,
    two_parities,
};

verus! {

/// The field of the array.
fn field() -> (f: FieldParams)
    ensures
        f.poly == 0x11d,
        f.width == 8,
        f.generator == 0x2,
        f.wf(),
{
    assert(bitlen(0x11d) == 9) by {
        reveal_with_fuel(bitlen, 11);
    }
    assert(exp2(8) == 0x100) by {
        reveal_with_fuel(exp2, 10);
    }
    FieldParams { poly: 0x11d, width: 8, generator: 0x2 }
}

/// Compute the parity blocks `p`, `q` of `blocks`.
pub fn format(blocks: &[Vec<u8>], p: &mut [u8], q: &mut [u8])
    requires
        old(q)@.len() == old(p)@.len(),
        blocks@.len() <= 0xff,
        blocks_ok(blocks@, old(p)@.len(), 8),
    ensures
        final(p)@.len() == old(p)@.len(),
        forall|i: int| 0 <= i < old(p)@.len() ==> (#[trigger] final(p)@[i]) as nat
            == parity(column(blocks@, i), 0x2, 0, 0x11d),
        final(q)@.len() == old(p)@.len(),
        forall|i: int| 0 <= i < old(p)@.len() ==> (#[trigger] final(q)@[i]) as nat
            == parity(column(blocks@, i), 0x2, 1, 0x11d),
{
    let f = field();
    format_parity(blocks, p, 0, &f);
    format_parity(blocks, q, 1, &f);
}

/// Bring the parity blocks up to date after data block `j` changed from
/// `before` to `after`.
pub fn update(j: usize, before: &[u8], after: &[u8], p: &mut [u8], q: &mut [u8])
    requires
        old(q)@.len() == old(p)@.len(),
        before@.len() >= old(p)@.len(),
        forall|i: int| 0 <= i < old(p)@.len() ==> (#[trigger] before@[i]).nat_of() < exp2(8),
        after@.len() >= old(p)@.len(),
        forall|i: int| 0 <= i < old(p)@.len() ==> (#[trigger] after@[i]).nat_of() < exp2(8),
        block_ok(old(p)@, 8),
        block_ok(old(q)@, 8),
    ensures
        final(p)@.len() == old(p)@.len(),
        block_ok(final(p)@, 8),
        forall|i: int| 0 <= i < old(p)@.len() ==> (#[trigger] final(p)@[i]) as nat
            == pxor(old(p)@[i] as nat, mulmod(pxor(before@[i] as nat, after@[i] as nat), coef(0x2, 0, j as nat, 0x11d), 0x11d)),
        final(q)@.len() == old(p)@.len(),
        block_ok(final(q)@, 8),
        forall|i: int| 0 <= i < old(p)@.len() ==> (#[trigger] final(q)@[i]) as nat
            == pxor(old(q)@[i] as nat, mulmod(pxor(before@[i] as nat, after@[i] as nat), coef(0x2, 1, j as nat, 0x11d), 0x11d)),
{
    let f = field();
    update_parity(j, before, after, p, 0, &f);
    update_parity(j, before, after, q, 1, &f);
}

/// Bring the parity blocks up to date after adding data block `j`, holding
/// `new`, to the array.
pub fn add(j: usize, new: &[u8], p: &mut [u8], q: &mut [u8])
    requires
        old(q)@.len() == old(p)@.len(),
        new@.len() >= old(p)@.len(),
        forall|i: int| 0 <= i < old(p)@.len() ==> (#[trigger] new@[i]).nat_of() < exp2(8),
        block_ok(old(p)@, 8),
        block_ok(old(q)@, 8),
    ensures
        final(p)@.len() == old(p)@.len(),
        block_ok(final(p)@, 8),
        forall|i: int| 0 <= i < old(p)@.len() ==> (#[trigger] final(p)@[i]) as nat
            == pxor(old(p)@[i] as nat, mulmod(new@[i] as nat, coef(0x2, 0, j as nat, 0x11d), 0x11d)),
        final(q)@.len() == old(p)@.len(),
        block_ok(final(q)@, 8),
        forall|i: int| 0 <= i < old(p)@.len() ==> (#[trigger] final(q)@[i]) as nat
            == pxor(old(q)@[i] as nat, mulmod(new@[i] as nat, coef(0x2, 1, j as nat, 0x11d), 0x11d)),
{
    let f = field();
    accumulate_parity(j, new, p, 0, &f);
    accumulate_parity(j, new, q, 1, &f);
}

/// Bring the parity blocks up to date after removing data block `j`, which
/// held `old_block`, from the array.
pub fn remove(j: usize, old_block: &[u8], p: &mut [u8], q: &mut [u8])
    requires
        old(q)@.len() == old(p)@.len(),
        old_block@.len() >= old(p)@.len(),
        forall|i: int| 0 <= i < old(p)@.len() ==> (#[trigger] old_block@[i]).nat_of() < exp2(8),
        block_ok(old(p)@, 8),
        block_ok(old(q)@, 8),
    ensures
        final(p)@.len() == old(p)@.len(),
        block_ok(final(p)@, 8),
        forall|i: int| 0 <= i < old(p)@.len() ==> (#[trigger] final(p)@[i]) as nat
            == pxor(old(p)@[i] as nat, mulmod(old_block@[i] as nat, coef(0x2, 0, j as nat, 0x11d), 0x11d)),
        final(q)@.len() == old(p)@.len(),
        block_ok(final(q)@, 8),
        forall|i: int| 0 <= i < old(p)@.len() ==> (#[trigger] final(q)@[i]) as nat
            == pxor(old(q)@[i] as nat, mulmod(old_block@[i] as nat, coef(0x2, 1, j as nat, 0x11d), 0x11d)),
{
    let f = field();
    accumulate_parity(j, old_block, p, 0, &f);
    accumulate_parity(j, old_block, q, 1, &f);
}

/// Rebuild the blocks listed in `bad`: data blocks are numbered from `0`,
/// then come the parity blocks `p`, `q`. Fails when more than 2 blocks are listed.
/// When the blocks that are not listed belong to a consistent array, that
/// array is what the blocks hold afterwards.
pub fn repair(blocks: &mut [Vec<u8>], p: &mut [u8], q: &mut [u8], bad: &[usize]) -> (res: Result<(), RaidError>)
    requires
        old(q)@.len() == old(p)@.len(),
        blocks_ok(old(blocks)@, old(p)@.len(), 8),
        block_ok(old(p)@, 8),
        block_ok(old(q)@, 8),
    ensures
        res is Err <==> bad@.len() > 2,
        res is Err ==> final(blocks)@ == old(blocks)@ && final(p)@ == old(p)@ && final(q)@ == old(q)@,
        final(blocks)@.len() == old(blocks)@.len(),
        blocks_ok(final(blocks)@, old(p)@.len(), 8),
        final(p)@.len() == old(p)@.len(),
        block_ok(final(p)@, 8),
        final(q)@.len() == old(p)@.len(),
        block_ok(final(q)@, 8),
        forall|j: int| 0 <= j < old(blocks)@.len() && !bad_has(bad@, j)
            ==> #[trigger] final(blocks)@[j] == old(blocks)@[j],
        !bad_has(bad@, old(blocks)@.len() + 0int) ==> final(p)@ == old(p)@,
        !bad_has(bad@, old(blocks)@.len() + 1int) ==> final(q)@ == old(q)@,
        res is Ok && old(blocks)@.len() <= 0xff ==> forall|i: int, a: Seq<nat>| 0 <= i < old(p)@.len()
            && #[trigger] completes(a, old(blocks)@, two_parities(old(p)@, old(q)@), bad@, i, 0x2, 0x11d, 8)
            ==> holds(a, final(blocks)@, two_parities(final(p)@, final(q)@), i),
{
    let f = field();
    let len = p.len();
    let mut pars: Vec<Vec<u8>> = Vec::new();
    pars.push(slice_to_vec(p));
    pars.push(slice_to_vec(q));
    let ghost b0 = blocks@;
    proof {
        assert(views(pars@) =~= two_parities(p@, q@));
    }
    let res = repair_array(blocks, &mut pars, bad, len, &f);
    copy_words(p, &pars[0]);
    copy_words(q, &pars[1]);
    proof {
        assert(views(pars@) =~= two_parities(p@, q@));
        if b0.len() <= 0xff {
            crate::raid::lemma_gf256_raid_facts(b0.len(), 2);
        }
    }
    res
}

} // verus!
