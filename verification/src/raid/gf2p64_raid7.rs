//! Three parity blocks over the field `GF(2^64)` defined by `0x1000000000000001b`, one element in each `u64`.

use vstd::prelude::*;
use vstd::slice::slice_to_vec;
use crate::poly::{exp2, bitlen, pxor, mulmod};
use crate::raid::{
    FieldParams, RaidError, Word, coef, parity, column, blocks_ok, block_ok, bad_has, completes, holds, views,
    format_parity, update_parity, accumulate_parity, repair_array, copy_words,
    three_parities,
};

verus! {

/// The field of the array.
fn field() -> (f: FieldParams)
    ensures
        f.poly == 0x1000000000000001b,
        f.width == 64,
        f.generator == 0x2,
        f.wf(),
{
    proof {
        crate::bits::lemma_exp2_values();
        assert(exp2(65) == 2 * exp2(64));
        crate::poly::lemma_bitlen_exact(0x1000000000000001b, 65);
    }
    FieldParams { poly: 0x1000000000000001b, width: 64, generator: 0x2 }
}

/// Compute the parity blocks `p`, `q`, `r` of `blocks`.
pub fn format(blocks: &[Vec<u64>], p: &mut [u64], q: &mut [u64], r: &mut [u64])
    requires
        old(q)@.len() == old(p)@.len(),
        old(r)@.len() == old(p)@.len(),
        blocks@.len() <= 0xffffffffffffffff,
        blocks_ok(blocks@, old(p)@.len(), 64),
    ensures
        final(p)@.len() == old(p)@.len(),
        forall|i: int| 0 <= i < old(p)@.len() ==> (#[trigger] final(p)@[i]) as nat
            == parity(column(blocks@, i), 0x2, 0, 0x1000000000000001b),
        final(q)@.len() == old(p)@.len(),
        forall|i: int| 0 <= i < old(p)@.len() ==> (#[trigger] final(q)@[i]) as nat
            == parity(column(blocks@, i), 0x2, 1, 0x1000000000000001b),
        final(r)@.len() == old(p)@.len(),
        forall|i: int| 0 <= i < old(p)@.len() ==> (#[trigger] final(r)@[i]) as nat
            == parity(column(blocks@, i), 0x2, 2, 0x1000000000000001b),
{
    let f = field();
    format_parity(blocks, p, 0, &f);
    format_parity(blocks, q, 1, &f);
    format_parity(blocks, r, 2, &f);
}

/// Bring the parity blocks up to date after data block `j` changed from
/// `before` to `after`.
pub fn update(j: usize, before: &[u64], after: &[u64], p: &mut [u64], q: &mut [u64], r: &mut [u64])
    requires
        old(q)@.len() == old(p)@.len(),
        old(r)@.len() == old(p)@.len(),
        before@.len() >= old(p)@.len(),
        forall|i: int| 0 <= i < old(p)@.len() ==> (#[trigger] before@[i]).nat_of() < exp2(64),
        after@.len() >= old(p)@.len(),
        forall|i: int| 0 <= i < old(p)@.len() ==> (#[trigger] after@[i]).nat_of() < exp2(64),
        block_ok(old(p)@, 64),
        block_ok(old(q)@, 64),
        block_ok(old(r)@, 64),
    ensures
        final(p)@.len() == old(p)@.len(),
        block_ok(final(p)@, 64),
        forall|i: int| 0 <= i < old(p)@.len() ==> (#[trigger] final(p)@[i]) as nat
            == pxor(old(p)@[i] as nat, mulmod(pxor(before@[i] as nat, after@[i] as nat), coef(0x2, 0, j as nat, 0x1000000000000001b), 0x1000000000000001b)),
        final(q)@.len() == old(p)@.len(),
        block_ok(final(q)@, 64),
        forall|i: int| 0 <= i < old(p)@.len() ==> (#[trigger] final(q)@[i]) as nat
            == pxor(old(q)@[i] as nat, mulmod(pxor(before@[i] as nat, after@[i] as nat), coef(0x2, 1, j as nat, 0x1000000000000001b), 0x1000000000000001b)),
        final(r)@.len() == old(p)@.len(),
        block_ok(final(r)@, 64),
        forall|i: int| 0 <= i < old(p)@.len() ==> (#[trigger] final(r)@[i]) as nat
            == pxor(old(r)@[i] as nat, mulmod(pxor(before@[i] as nat, after@[i] as nat), coef(0x2, 2, j as nat, 0x1000000000000001b), 0x1000000000000001b)),
{
    let f = field();
    update_parity(j, before, after, p, 0, &f);
    update_parity(j, before, after, q, 1, &f);
    update_parity(j, before, after, r, 2, &f);
}

/// Bring the parity blocks up to date after adding data block `j`, holding
/// `new`, to the array.
pub fn add(j: usize, new: &[u64], p: &mut [u64], q: &mut [u64], r: &mut [u64])
    requires
        old(q)@.len() == old(p)@.len(),
        old(r)@.len() == old(p)@.len(),
        new@.len() >= old(p)@.len(),
        forall|i: int| 0 <= i < old(p)@.len() ==> (#[trigger] new@[i]).nat_of() < exp2(64),
        block_ok(old(p)@, 64),
        block_ok(old(q)@, 64),
        block_ok(old(r)@, 64),
    ensures
        final(p)@.len() == old(p)@.len(),
        block_ok(final(p)@, 64),
        forall|i: int| 0 <= i < old(p)@.len() ==> (#[trigger] final(p)@[i]) as nat
            == pxor(old(p)@[i] as nat, mulmod(new@[i] as nat, coef(0x2, 0, j as nat, 0x1000000000000001b), 0x1000000000000001b)),
        final(q)@.len() == old(p)@.len(),
        block_ok(final(q)@, 64),
        forall|i: int| 0 <= i < old(p)@.len() ==> (#[trigger] final(q)@[i]) as nat
            == pxor(old(q)@[i] as nat, mulmod(new@[i] as nat, coef(0x2, 1, j as nat, 0x1000000000000001b), 0x1000000000000001b)),
        final(r)@.len() == old(p)@.len(),
        block_ok(final(r)@, 64),
        forall|i: int| 0 <= i < old(p)@.len() ==> (#[trigger] final(r)@[i]) as nat
            == pxor(old(r)@[i] as nat, mulmod(new@[i] as nat, coef(0x2, 2, j as nat, 0x1000000000000001b), 0x1000000000000001b)),
{
    let f = field();
    accumulate_parity(j, new, p, 0, &f);
    accumulate_parity(j, new, q, 1, &f);
    accumulate_parity(j, new, r, 2, &f);
}

/// Bring the parity blocks up to date after removing data block `j`, which
/// held `old_block`, from the array.
pub fn remove(j: usize, old_block: &[u64], p: &mut [u64], q: &mut [u64], r: &mut [u64])
    requires
        old(q)@.len() == old(p)@.len(),
        old(r)@.len() == old(p)@.len(),
        old_block@.len() >= old(p)@.len(),
        forall|i: int| 0 <= i < old(p)@.len() ==> (#[trigger] old_block@[i]).nat_of() < exp2(64),
        block_ok(old(p)@, 64),
        block_ok(old(q)@, 64),
        block_ok(old(r)@, 64),
    ensures
        final(p)@.len() == old(p)@.len(),
        block_ok(final(p)@, 64),
        forall|i: int| 0 <= i < old(p)@.len() ==> (#[trigger] final(p)@[i]) as nat
            == pxor(old(p)@[i] as nat, mulmod(old_block@[i] as nat, coef(0x2, 0, j as nat, 0x1000000000000001b), 0x1000000000000001b)),
        final(q)@.len() == old(p)@.len(),
        block_ok(final(q)@, 64),
        forall|i: int| 0 <= i < old(p)@.len() ==> (#[trigger] final(q)@[i]) as nat
            == pxor(old(q)@[i] as nat, mulmod(old_block@[i] as nat, coef(0x2, 1, j as nat, 0x1000000000000001b), 0x1000000000000001b)),
        final(r)@.len() == old(p)@.len(),
        block_ok(final(r)@, 64),
        forall|i: int| 0 <= i < old(p)@.len() ==> (#[trigger] final(r)@[i]) as nat
            == pxor(old(r)@[i] as nat, mulmod(old_block@[i] as nat, coef(0x2, 2, j as nat, 0x1000000000000001b), 0x1000000000000001b)),
{
    let f = field();
    accumulate_parity(j, old_block, p, 0, &f);
    accumulate_parity(j, old_block, q, 1, &f);
    accumulate_parity(j, old_block, r, 2, &f);
}

/// Rebuild the blocks listed in `bad`: data blocks are numbered from `0`,
/// then come the parity blocks `p`, `q`, `r`. Fails when more than 3 blocks are listed.
/// When the blocks that are not listed belong to a consistent array, that
/// array is what the blocks hold afterwards.
pub fn repair(blocks: &mut [Vec<u64>], p: &mut [u64], q: &mut [u64], r: &mut [u64], bad: &[usize]) -> (res: Result<(), RaidError>)
    requires
        old(q)@.len() == old(p)@.len(),
        old(r)@.len() == old(p)@.len(),
        blocks_ok(old(blocks)@, old(p)@.len(), 64),
        block_ok(old(p)@, 64),
        block_ok(old(q)@, 64),
        block_ok(old(r)@, 64),
    ensures
        res is Err <==> bad@.len() > 3,
        res is Err ==> final(blocks)@ == old(blocks)@ && final(p)@ == old(p)@ && final(q)@ == old(q)@ && final(r)@ == old(r)@,
        final(blocks)@.len() == old(blocks)@.len(),
        blocks_ok(final(blocks)@, old(p)@.len(), 64),
        final(p)@.len() == old(p)@.len(),
        block_ok(final(p)@, 64),
        final(q)@.len() == old(p)@.len(),
        block_ok(final(q)@, 64),
        final(r)@.len() == old(p)@.len(),
        block_ok(final(r)@, 64),
        forall|j: int| 0 <= j < old(blocks)@.len() && !bad_has(bad@, j)
            ==> #[trigger] final(blocks)@[j] == old(blocks)@[j],
        !bad_has(bad@, old(blocks)@.len() + 0int) ==> final(p)@ == old(p)@,
        !bad_has(bad@, old(blocks)@.len() + 1int) ==> final(q)@ == old(q)@,
        !bad_has(bad@, old(blocks)@.len() + 2int) ==> final(r)@ == old(r)@,
        res is Ok && old(blocks)@.len() <= 0xffffffffffffffff ==> forall|i: int, a: Seq<nat>| 0 <= i < old(p)@.len()
            && #[trigger] completes(a, old(blocks)@, three_parities(old(p)@, old(q)@, old(r)@), bad@, i, 0x2, 0x1000000000000001b, 64)
            ==> holds(a, final(blocks)@, three_parities(final(p)@, final(q)@, final(r)@), i),
{
    let f = field();
    let len = p.len();
    let mut pars: Vec<Vec<u64>> = Vec::new();
    pars.push(slice_to_vec(p));
    pars.push(slice_to_vec(q));
    pars.push(slice_to_vec(r));
    let ghost b0 = blocks@;
    proof {
        assert(views(pars@) =~= three_parities(p@, q@, r@));
    }
    let res = repair_array(blocks, &mut pars, bad, len, &f);
    copy_words(p, &pars[0]);
    copy_words(q, &pars[1]);
    copy_words(r, &pars[2]);
    proof {
        assert(views(pars@) =~= three_parities(p@, q@, r@));
        if b0.len() <= 0xffffffffffffffff {
            crate::raid::lemma_gf2p64_raid_facts(b0.len(), 3);
        }
    }
    res
}

} // verus!
