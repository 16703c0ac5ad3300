//! RAID parity: extra blocks from which up to as many lost blocks can be
//! rebuilt.
//!
//! An array holds `n` data blocks of equal length followed by one, two or
//! three parity blocks. Parity block `k` holds, word by word, the field sum
//! over the data blocks `j` of `d_j * (g^j)^k`: the plain sum `p` (`k == 0`),
//! `q` weighted by the powers of the generator `g` (`k == 1`), and `r`
//! weighted by their squares (`k == 2`). The modules below fix the field, the
//! word type and the number of parity blocks.

use vstd::prelude::*;
use crate::poly::{
    exp2, bitlen, pxor, pmul, mulmod, powmod, lemma_exp2_pos, lemma_exp2_mono, lemma_pxor_bound,
    lemma_pxor_assoc, lemma_pxor_comm, lemma_pxor_cancel, lemma_pxor_zero, lemma_mulmod_comm,
    lemma_mulmod_distrib, lemma_pmul_zero,
};
use crate::bits::{lemma_xor, lemma_exp2_values};
use crate::arith::{mulmod_u128, powmod_u128};

pub mod algebra;
pub mod raid0;
pub mod raid5;
pub mod raid6;
pub mod raid7;
pub mod raid7_all_params;
pub mod gf16_raid7;
pub mod gf2p23_raid7;
pub mod gf2p64_raid7;

verus! {

/// A machine word that holds one field element.
pub trait Word: Copy + Sized {
    /// The value of the word.
    spec fn nat_of(self) -> nat;

    /// The number of binary digits of the word type.
    spec fn width_of() -> nat;

    fn to_u128(self) -> (r: u128)
        ensures
            r as nat == self.nat_of(),
            (r as nat) < exp2(Self::width_of()),
    ;

    fn of_u128(x: u128) -> (r: Self)
        requires
            (x as nat) < exp2(Self::width_of()),
        ensures
            r.nat_of() == x as nat,
    ;
}

impl Word for u8 {
    open spec fn nat_of(self) -> nat {
        self as nat
    }

    open spec fn width_of() -> nat {
        8
    }

    fn to_u128(self) -> (r: u128) {
        proof {
            lemma_exp2_values();
        }
        self as u128
    }

    fn of_u128(x: u128) -> (r: u8) {
        proof {
            lemma_exp2_values();
        }
        x as u8
    }
}

impl Word for u32 {
    open spec fn nat_of(self) -> nat {
        self as nat
    }

    open spec fn width_of() -> nat {
        32
    }

    fn to_u128(self) -> (r: u128) {
        proof {
            lemma_exp2_values();
        }
        self as u128
    }

    fn of_u128(x: u128) -> (r: u32) {
        proof {
            lemma_exp2_values();
        }
        x as u32
    }
}

impl Word for u64 {
    open spec fn nat_of(self) -> nat {
        self as nat
    }

    open spec fn width_of() -> nat {
        64
    }

    fn to_u128(self) -> (r: u128) {
        proof {
            lemma_exp2_values();
        }
        self as u128
    }

    fn of_u128(x: u128) -> (r: u64) {
        proof {
            lemma_exp2_values();
        }
        x as u64
    }
}

/// A field to compute in: its defining polynomial, the number
/// of digits of its elements, and its generator.
#[derive(Clone, Copy)]
pub struct FieldParams {
    pub poly: u128,
    pub width: u32,
    pub generator: u128,
}

impl FieldParams {
    pub open spec fn wf(self) -> bool {
        &&& bitlen(self.poly as nat) == self.width + 1
        &&& 1 <= self.width <= 64
        &&& (self.generator as nat) < exp2(self.width as nat)
    }

    pub open spec fn m(self) -> nat {
        self.poly as nat
    }

    pub open spec fn g(self) -> nat {
        self.generator as nat
    }

    pub open spec fn w(self) -> nat {
        self.width as nat
    }
}

/// The weight of data block `j` in parity block `k`: `(g^j)^k`.
pub open spec fn coef(g: nat, k: nat, j: nat, m: nat) -> nat {
    powmod(powmod(g, j, m), k, m)
}

/// Parity `k` of one column of words, one word from each data block.
pub open spec fn parity(c: Seq<nat>, g: nat, k: nat, m: nat) -> nat
    decreases c.len(),
{
    if c.len() == 0 {
        0
    } else {
        pxor(parity(c.drop_last(), g, k, m), mulmod(c.last(), coef(g, k, (c.len() - 1) as nat, m), m))
    }
}

/// The words of a block as numbers.
pub open spec fn words<W: Word>(v: Seq<W>) -> Seq<nat> {
    v.map_values(|x: W| x.nat_of())
}

/// Column `i` of the data blocks: word `i` of each block, in block order.
pub open spec fn column<W: Word>(blocks: Seq<Vec<W>>, i: int) -> Seq<nat> {
    Seq::new(blocks.len(), |j: int| blocks[j]@[i].nat_of())
}

/// Every block has `len` words, each an element of the field.
pub open spec fn blocks_ok<W: Word>(blocks: Seq<Vec<W>>, len: nat, w: nat) -> bool {
    &&& forall|j: int| 0 <= j < blocks.len() ==> #[trigger] blocks[j]@.len() == len
    &&& forall|j: int, i: int| 0 <= j < blocks.len() && 0 <= i < len ==> #[trigger] blocks[j]@[i].nat_of() < exp2(w)
}

/// Every word of the block is an element of the field.
pub open spec fn block_ok<W: Word>(b: Seq<W>, w: nat) -> bool {
    forall|i: int| 0 <= i < b.len() ==> #[trigger] b[i].nat_of() < exp2(w)
}

/// `x ^ y` on field elements of `w` digits.
fn add_words(x: u128, y: u128, Ghost(w): Ghost<nat>) -> (r: u128)
    requires
        (x as nat) < exp2(w),
        (y as nat) < exp2(w),
    ensures
        r as nat == pxor(x as nat, y as nat),
        (r as nat) < exp2(w),
{
    proof {
        lemma_xor(x, y);
        lemma_pxor_bound(x as nat, y as nat, w);
    }
    x ^ y
}

/// The weight `(g^j)^k` of data block `j` in parity block `k`.
fn weight(f: &FieldParams, k: u32, j: usize) -> (r: u128)
    requires
        f.wf(),
    ensures
        r as nat == coef(f.g(), k as nat, j as nat, f.m()),
        (r as nat) < exp2(f.w()),
{
    let gj = powmod_u128(f.generator, j as u128, f.poly, f.width);
    powmod_u128(gj, k as u128, f.poly, f.width)
}

/// Compute parity block `k` of `blocks` into `out`.
pub fn format_parity<W: Word>(blocks: &[Vec<W>], out: &mut [W], k: u32, f: &FieldParams)
    requires
        f.wf(),
        f.w() <= W::width_of(),
        blocks_ok(blocks@, old(out)@.len(), f.w()),
    ensures
        final(out)@.len() == old(out)@.len(),
        forall|i: int| 0 <= i < final(out)@.len() ==>
            (#[trigger] final(out)@[i]).nat_of() == parity(column(blocks@, i), f.g(), k as nat, f.m()),
{
    let len = out.len();
    let ghost w = f.w();
    proof {
        lemma_exp2_pos(w);
        lemma_exp2_pos(W::width_of());
        lemma_exp2_mono(w, W::width_of());
    }
    let mut i: usize = 0;
    while i < len
        invariant
            f.wf(),
            f.w() <= W::width_of(),
            w == f.w(),
            len == out@.len(),
            0 <= i <= len,
            0 < exp2(W::width_of()),
            forall|i2: int| 0 <= i2 < i ==> (#[trigger] out@[i2]).nat_of() == 0,
        decreases len - i,
    {
        out[i] = W::of_u128(0);
        i = i + 1;
    }
    let n = blocks.len();
    let mut j: usize = 0;
    while j < n
        invariant
            f.wf(),
            f.w() <= W::width_of(),
            w == f.w(),
            n == blocks@.len(),
            len == out@.len(),
            blocks_ok(blocks@, len as nat, w),
            0 <= j <= n,
            forall|i2: int| 0 <= i2 < len ==> (#[trigger] out@[i2]).nat_of()
                == parity(column(blocks@, i2).subrange(0, j as int), f.g(), k as nat, f.m()),
            forall|i2: int| 0 <= i2 < len ==> (#[trigger] out@[i2]).nat_of() < exp2(w),
        decreases n - j,
    {
        let c = weight(f, k, j);
        let b = &blocks[j];
        let mut i: usize = 0;
        while i < len
            invariant
                f.wf(),
                f.w() <= W::width_of(),
                w == f.w(),
                n == blocks@.len(),
                len == out@.len(),
                blocks_ok(blocks@, len as nat, w),
                0 <= j < n,
                b@ == blocks@[j as int]@,
                c as nat == coef(f.g(), k as nat, j as nat, f.m()),
                (c as nat) < exp2(w),
                0 <= i <= len,
                forall|i2: int| 0 <= i2 < i ==> (#[trigger] out@[i2]).nat_of()
                    == parity(column(blocks@, i2).subrange(0, j + 1), f.g(), k as nat, f.m()),
                forall|i2: int| i <= i2 < len ==> (#[trigger] out@[i2]).nat_of()
                    == parity(column(blocks@, i2).subrange(0, j as int), f.g(), k as nat, f.m()),
                forall|i2: int| 0 <= i2 < len ==> (#[trigger] out@[i2]).nat_of() < exp2(w),
            decreases len - i,
        {
            proof {
                assert(blocks@[j as int]@.len() == len);
                assert(b@[i as int].nat_of() < exp2(w));
            }
            let x = b[i].to_u128();
            let y = out[i].to_u128();
            let t = mulmod_u128(x, c, f.poly, f.width);
            let s = add_words(y, t, Ghost(w));
            proof {
                lemma_exp2_mono(w, W::width_of());
                let col = column(blocks@, i as int);
                assert(col.subrange(0, j + 1).drop_last() =~= col.subrange(0, j as int));
                assert(col.subrange(0, j + 1).last() == x as nat);
            }
            out[i] = W::of_u128(s);
            i = i + 1;
        }
        j = j + 1;
    }
    proof {
        assert forall|i2: int| 0 <= i2 < len implies (#[trigger] out@[i2]).nat_of()
            == parity(column(blocks@, i2), f.g(), k as nat, f.m()) by {
            assert(column(blocks@, i2).subrange(0, n as int) =~= column(blocks@, i2));
        }
    }
}

/// Multiplication distributes over addition from the right.
proof fn lemma_mulmod_distrib_left(a: nat, b: nat, c: nat, m: nat)
    requires
        m > 0,
    ensures
        mulmod(pxor(a, b), c, m) == pxor(mulmod(a, c, m), mulmod(b, c, m)),
{
    lemma_mulmod_comm(pxor(a, b), c, m);
    lemma_mulmod_distrib(c, a, b, m);
    lemma_mulmod_comm(a, c, m);
    lemma_mulmod_comm(b, c, m);
}

/// Zero times anything is zero.
proof fn lemma_mulmod_zero(c: nat, m: nat)
    requires
        m > 0,
    ensures
        mulmod(0, c, m) == 0,
{
    lemma_pmul_zero(c);
    crate::poly::lemma_bitlen_bound(m);
    crate::poly::lemma_pmod_small(0, m);
}

/// Replacing word `j` of a column by `y` adds `(c[j] + y) * (g^j)^k` to
/// parity `k`.
pub proof fn lemma_parity_update(c: Seq<nat>, j: int, y: nat, g: nat, k: nat, m: nat)
    requires
        0 <= j < c.len(),
        m > 0,
    ensures
        parity(c.update(j, y), g, k, m)
            == pxor(parity(c, g, k, m), mulmod(pxor(c[j], y), coef(g, k, j as nat, m), m)),
    decreases c.len(),
{
    let c2 = c.update(j, y);
    let cf = coef(g, k, j as nat, m);
    let d = mulmod(pxor(c[j], y), cf, m);
    lemma_mulmod_distrib_left(c[j], y, cf, m);
    if j == c.len() - 1 {
        assert(c2.drop_last() =~= c.drop_last());
        let p0 = parity(c.drop_last(), g, k, m);
        let a = mulmod(c[j], cf, m);
        let b = mulmod(y, cf, m);
        // p0 + b == (p0 + a) + (a + b)
        lemma_pxor_assoc(p0, a, pxor(a, b));
        lemma_pxor_assoc(a, a, b);
        crate::poly::lemma_pxor_self(a);
        lemma_pxor_zero(b);
    } else {
        assert(c2.drop_last() =~= c.drop_last().update(j, y));
        lemma_parity_update(c.drop_last(), j, y, g, k, m);
        let x = parity(c.drop_last(), g, k, m);
        let l = mulmod(c.last(), coef(g, k, (c.len() - 1) as nat, m), m);
        lemma_pxor_assoc(x, d, l);
        lemma_pxor_comm(d, l);
        lemma_pxor_assoc(x, l, d);
    }
}

/// Column `c` with the words at the listed positions replaced by zero.
pub open spec fn zeroed(c: Seq<nat>, d: Seq<usize>) -> Seq<nat> {
    Seq::new(c.len(), |j: int| if d.contains(j as usize) { 0 } else { c[j] })
}

/// Whether `d` lists `j`.
fn list_has(d: &Vec<usize>, j: usize) -> (r: bool)
    ensures
        r == d@.contains(j),
{
    let mut i: usize = 0;
    while i < d.len()
        invariant
            0 <= i <= d@.len(),
            forall|i2: int| 0 <= i2 < i ==> d@[i2] != j,
        decreases d@.len() - i,
    {
        if d[i] == j {
            return true;
        }
        i = i + 1;
    }
    false
}

/// For each column `i`, parity `k` as stored in `par` plus parity `k` of the
/// data blocks with the blocks listed in `d` left out: what the left-out
/// blocks contribute to the stored parity.
fn deltas<W: Word>(blocks: &[Vec<W>], par: &Vec<W>, k: u32, d: &Vec<usize>, f: &FieldParams) -> (r: Vec<u128>)
    requires
        f.wf(),
        f.w() <= W::width_of(),
        blocks_ok(blocks@, par@.len(), f.w()),
        block_ok(par@, f.w()),
    ensures
        r@.len() == par@.len(),
        forall|i: int| 0 <= i < r@.len() ==> (#[trigger] r@[i]) as nat
            == pxor(par@[i].nat_of(), parity(zeroed(column(blocks@, i), d@), f.g(), k as nat, f.m())),
        forall|i: int| 0 <= i < r@.len() ==> ((#[trigger] r@[i]) as nat) < exp2(f.w()),
{
    let len = par.len();
    let ghost w = f.w();
    let mut r: Vec<u128> = Vec::new();
    let mut i: usize = 0;
    while i < len
        invariant
            len == par@.len(),
            block_ok(par@, w),
            0 <= i <= len,
            r@.len() == i,
            forall|i2: int| 0 <= i2 < i ==> (#[trigger] r@[i2]) as nat == par@[i2].nat_of(),
        decreases len - i,
    {
        let x = par[i].to_u128();
        r.push(x);
        i = i + 1;
    }
    proof {
        assert forall|i2: int| 0 <= i2 < len implies (#[trigger] r@[i2]) as nat
            == pxor(par@[i2].nat_of(), parity(zeroed(column(blocks@, i2), d@).subrange(0, 0), f.g(), k as nat, f.m())) by {
            lemma_pxor_zero(par@[i2].nat_of());
        }
    }
    let n = blocks.len();
    let mut j: usize = 0;
    while j < n
        invariant
            f.wf(),
            f.w() <= W::width_of(),
            w == f.w(),
            n == blocks@.len(),
            len == par@.len(),
            r@.len() == len,
            blocks_ok(blocks@, len as nat, w),
            block_ok(par@, w),
            0 <= j <= n,
            forall|i2: int| 0 <= i2 < len ==> (#[trigger] r@[i2]) as nat
                == pxor(par@[i2].nat_of(), parity(zeroed(column(blocks@, i2), d@).subrange(0, j as int), f.g(), k as nat, f.m())),
            forall|i2: int| 0 <= i2 < len ==> ((#[trigger] r@[i2]) as nat) < exp2(w),
        decreases n - j,
    {
        let skip = list_has(d, j);
        let c = weight(f, k, j);
        let b = &blocks[j];
        let mut i: usize = 0;
        while i < len
            invariant
                f.wf(),
                f.w() <= W::width_of(),
                w == f.w(),
                n == blocks@.len(),
                len == par@.len(),
                r@.len() == len,
                blocks_ok(blocks@, len as nat, w),
                block_ok(par@, w),
                0 <= j < n,
                skip == d@.contains(j),
                b@ == blocks@[j as int]@,
                c as nat == coef(f.g(), k as nat, j as nat, f.m()),
                (c as nat) < exp2(w),
                0 <= i <= len,
                forall|i2: int| 0 <= i2 < i ==> (#[trigger] r@[i2]) as nat
                    == pxor(par@[i2].nat_of(), parity(zeroed(column(blocks@, i2), d@).subrange(0, j + 1), f.g(), k as nat, f.m())),
                forall|i2: int| i <= i2 < len ==> (#[trigger] r@[i2]) as nat
                    == pxor(par@[i2].nat_of(), parity(zeroed(column(blocks@, i2), d@).subrange(0, j as int), f.g(), k as nat, f.m())),
                forall|i2: int| 0 <= i2 < len ==> ((#[trigger] r@[i2]) as nat) < exp2(w),
            decreases len - i,
        {
            proof {
                assert(blocks@[j as int]@.len() == len);
                assert(b@[i as int].nat_of() < exp2(w));
                lemma_exp2_pos(w);
            }
            let x = if skip { 0 } else { b[i].to_u128() };
            let t = mulmod_u128(x, c, f.poly, f.width);
            let y = r[i];
            let s = add_words(y, t, Ghost(w));
            proof {
                let col = zeroed(column(blocks@, i as int), d@);
                let pv = par@[i as int].nat_of();
                assert(col.subrange(0, j + 1).drop_last() =~= col.subrange(0, j as int));
                assert(col.subrange(0, j + 1).last() == x as nat);
                lemma_pxor_assoc(pv, parity(col.subrange(0, j as int), f.g(), k as nat, f.m()), t as nat);
            }
            r.set(i, s);
            i = i + 1;
        }
        j = j + 1;
    }
    proof {
        assert forall|i2: int| 0 <= i2 < len implies (#[trigger] r@[i2]) as nat
            == pxor(par@[i2].nat_of(), parity(zeroed(column(blocks@, i2), d@), f.g(), k as nat, f.m())) by {
            assert(zeroed(column(blocks@, i2), d@).subrange(0, n as int) =~= zeroed(column(blocks@, i2), d@));
        }
    }
    r
}

/// Add `x[i] * (g^j)^k` to word `i` of parity block `k`, for every word:
/// what adding data block `j` with words `x` to the array changes, and also
/// what removing it changes.
pub fn accumulate_parity<W: Word>(j: usize, x: &[W], out: &mut [W], k: u32, f: &FieldParams)
    requires
        f.wf(),
        f.w() <= W::width_of(),
        x@.len() >= old(out)@.len(),
        forall|i: int| 0 <= i < old(out)@.len() ==> (#[trigger] x@[i]).nat_of() < exp2(f.w()),
        block_ok(old(out)@, f.w()),
    ensures
        final(out)@.len() == old(out)@.len(),
        block_ok(final(out)@, f.w()),
        forall|i: int| 0 <= i < final(out)@.len() ==> (#[trigger] final(out)@[i]).nat_of() == pxor(
            old(out)@[i].nat_of(),
            mulmod(x@[i].nat_of(), coef(f.g(), k as nat, j as nat, f.m()), f.m()),
        ),
{
    let len = out.len();
    let c = weight(f, k, j);
    let ghost o = out@;
    proof {
        lemma_exp2_mono(f.w(), W::width_of());
    }
    let mut i: usize = 0;
    while i < len
        invariant
            f.wf(),
            exp2(f.w()) <= exp2(W::width_of()),
            len == out@.len(),
            o.len() == len,
            x@.len() >= len,
            forall|i2: int| 0 <= i2 < len ==> (#[trigger] x@[i2]).nat_of() < exp2(f.w()),
            block_ok(o, f.w()),
            block_ok(out@, f.w()),
            c as nat == coef(f.g(), k as nat, j as nat, f.m()),
            (c as nat) < exp2(f.w()),
            0 <= i <= len,
            forall|i2: int| i <= i2 < len ==> #[trigger] out@[i2] == o[i2],
            forall|i2: int| 0 <= i2 < i ==> (#[trigger] out@[i2]).nat_of() == pxor(
                o[i2].nat_of(), mulmod(x@[i2].nat_of(), c as nat, f.m())),
        decreases len - i,
    {
        let a = x[i].to_u128();
        let t = fmul(a, c, f);
        let y = out[i].to_u128();
        let s = fadd(y, t, f);
        out[i] = W::of_u128(s);
        i = i + 1;
    }
}

/// Add `(before[i] + after[i]) * (g^j)^k` to word `i` of parity block `k`, for
/// every word: what replacing data block `j`, holding `before`, by `after` changes.
pub fn update_parity<W: Word>(j: usize, before: &[W], after: &[W], out: &mut [W], k: u32, f: &FieldParams)
    requires
        f.wf(),
        f.w() <= W::width_of(),
        before@.len() >= old(out)@.len(),
        after@.len() >= old(out)@.len(),
        forall|i: int| 0 <= i < old(out)@.len() ==> (#[trigger] before@[i]).nat_of() < exp2(f.w()),
        forall|i: int| 0 <= i < old(out)@.len() ==> (#[trigger] after@[i]).nat_of() < exp2(f.w()),
        block_ok(old(out)@, f.w()),
    ensures
        final(out)@.len() == old(out)@.len(),
        block_ok(final(out)@, f.w()),
        forall|i: int| 0 <= i < final(out)@.len() ==> (#[trigger] final(out)@[i]).nat_of() == pxor(
            old(out)@[i].nat_of(),
            mulmod(pxor(before@[i].nat_of(), after@[i].nat_of()), coef(f.g(), k as nat, j as nat, f.m()), f.m()),
        ),
{
    let len = out.len();
    let c = weight(f, k, j);
    let ghost o = out@;
    proof {
        lemma_exp2_mono(f.w(), W::width_of());
    }
    let mut i: usize = 0;
    while i < len
        invariant
            f.wf(),
            exp2(f.w()) <= exp2(W::width_of()),
            len == out@.len(),
            o.len() == len,
            before@.len() >= len,
            after@.len() >= len,
            forall|i2: int| 0 <= i2 < len ==> (#[trigger] before@[i2]).nat_of() < exp2(f.w()),
            forall|i2: int| 0 <= i2 < len ==> (#[trigger] after@[i2]).nat_of() < exp2(f.w()),
            block_ok(o, f.w()),
            block_ok(out@, f.w()),
            c as nat == coef(f.g(), k as nat, j as nat, f.m()),
            (c as nat) < exp2(f.w()),
            0 <= i <= len,
            forall|i2: int| i <= i2 < len ==> #[trigger] out@[i2] == o[i2],
            forall|i2: int| 0 <= i2 < i ==> (#[trigger] out@[i2]).nat_of() == pxor(
                o[i2].nat_of(), mulmod(pxor(before@[i2].nat_of(), after@[i2].nat_of()), c as nat, f.m())),
        decreases len - i,
    {
        let a = before[i].to_u128();
        let b = after[i].to_u128();
        let e = fadd(a, b, f);
        let t = fmul(e, c, f);
        let y = out[i].to_u128();
        let s = fadd(y, t, f);
        out[i] = W::of_u128(s);
        i = i + 1;
    }
}

/// Copy `src` into `dst`, word by word.
pub fn copy_words<W: Word>(dst: &mut [W], src: &Vec<W>)
    requires
        src@.len() == old(dst)@.len(),
    ensures
        final(dst)@ == src@,
{
    let len = dst.len();
    let mut i: usize = 0;
    while i < len
        invariant
            len == dst@.len(),
            src@.len() == len,
            0 <= i <= len,
            forall|i2: int| 0 <= i2 < i ==> #[trigger] dst@[i2] == src@[i2],
        decreases len - i,
    {
        dst[i] = src[i];
        i = i + 1;
    }
    proof {
        assert(dst@ =~= src@);
    }
}

/// Why a repair was refused.
#[derive(Clone, Copy, Debug, PartialEq, Eq, Structural)]
pub enum RaidError {
    /// More blocks were listed as bad than there are parity blocks.
    TooManyBadBlocks,
}

/// Whether `bad` lists disk `j` (data blocks first, then parity blocks).
pub open spec fn bad_has(bad: Seq<usize>, j: int) -> bool {
    exists|i: int| 0 <= i < bad.len() && bad[i] as int == j
}

/// Every data and parity block has `len` words, each a field element.
pub open spec fn array_ok<W: Word>(blocks: Seq<Vec<W>>, pars: Seq<Vec<W>>, len: nat, w: nat) -> bool {
    &&& blocks_ok(blocks, len, w)
    &&& blocks_ok(pars, len, w)
}

/// The products and quotients of the field of `f`.
pub(crate) fn fmul(a: u128, b: u128, f: &FieldParams) -> (r: u128)
    requires
        f.wf(),
        (a as nat) < exp2(f.w()),
        (b as nat) < exp2(f.w()),
    ensures
        r as nat == mulmod(a as nat, b as nat, f.m()),
        (r as nat) < exp2(f.w()),
{
    mulmod_u128(a, b, f.poly, f.width)
}

/// `a / b`, that is `a * b^(2^w - 2)`.
pub open spec fn fdiv(a: nat, b: nat, m: nat, w: nat) -> nat {
    mulmod(a, powmod(b, (exp2(w) - 2) as nat, m), m)
}

pub(crate) fn fdivide(a: u128, b: u128, f: &FieldParams) -> (r: u128)
    requires
        f.wf(),
        (a as nat) < exp2(f.w()),
        (b as nat) < exp2(f.w()),
    ensures
        r as nat == fdiv(a as nat, b as nat, f.m(), f.w()),
        (r as nat) < exp2(f.w()),
{
    proof {
        lemma_exp2_values();
        lemma_exp2_mono(f.w(), 64);
        lemma_exp2_mono(1, f.w());
        assert(exp2(1) == 2 * exp2(0));
        crate::bits::lemma_shl(1, f.width);
    }
    let e: u128 = (1u128 << f.width) - 2;
    let inv = powmod_u128(b, e, f.poly, f.width);
    fmul(a, inv, f)
}

/// The data blocks listed in `bad`, in increasing order.
fn bad_data(bad: &[usize], n: usize) -> (d: Vec<usize>)
    ensures
        forall|x: int, y: int| 0 <= x < y < d@.len() ==> d@[x] < d@[y],
        forall|j: int| 0 <= j < n ==> (d@.contains(j as usize) <==> bad_has(bad@, j)),
        forall|x: int| 0 <= x < d@.len() ==> (#[trigger] d@[x]) < n,
        d@.len() <= bad@.len(),
{
    let mut d: Vec<usize> = Vec::new();
    let mut j: usize = 0;
    while j < n
        invariant
            0 <= j <= n,
            forall|x: int, y: int| 0 <= x < y < d@.len() ==> d@[x] < d@[y],
            forall|x: int| 0 <= x < d@.len() ==> (#[trigger] d@[x]) < j,
            forall|j2: int| 0 <= j2 < j ==> (d@.contains(j2 as usize) <==> bad_has(bad@, j2)),
            forall|x: int| 0 <= x < d@.len() ==> bad_has(bad@, #[trigger] d@[x] as int),
        decreases n - j,
    {
        let mut found = false;
        let mut i: usize = 0;
        while i < bad.len()
            invariant
                0 <= i <= bad@.len(),
                found <==> exists|i2: int| 0 <= i2 < i && bad@[i2] == j,
            decreases bad@.len() - i,
        {
            if bad[i] == j {
                found = true;
            }
            i = i + 1;
        }
        let ghost d0 = d@;
        if found {
            d.push(j);
        }
        proof {
            assert(found <==> bad_has(bad@, j as int));
            assert forall|j2: int| 0 <= j2 < j + 1 implies (d@.contains(j2 as usize) <==> bad_has(bad@, j2)) by {
                if j2 == j as int {
                    if found {
                        assert(d@[d@.len() - 1] == j);
                    } else {
                        assert(d@ == d0);
                        if d@.contains(j2 as usize) {
                            let x = choose|x: int| 0 <= x < d@.len() && d@[x] == j2 as usize;
                            assert(d0[x] < j);
                        }
                    }
                } else {
                    if d@.contains(j2 as usize) {
                        let x = choose|x: int| 0 <= x < d@.len() && d@[x] == j2 as usize;
                        if x < d0.len() {
                            assert(d0[x] == j2 as usize);
                            assert(d0.contains(j2 as usize));
                        }
                    }
                    if d0.contains(j2 as usize) {
                        let x = choose|x: int| 0 <= x < d0.len() && d0[x] == j2 as usize;
                        assert(d@[x] == j2 as usize);
                    }
                }
            }
        }
        j = j + 1;
    }
    proof {
        // the listed blocks are distinct entries of `bad`
        lemma_distinct_sub(d@, bad@);
    }
    d
}

/// The data blocks and the parity blocks that `bad` lists are no more than
/// its entries.
proof fn lemma_count_bad(bad: Seq<usize>, d: Seq<usize>, n: nat, kk: nat)
    requires
        lists_bad_data(d, bad, n),
    ensures
        d.len() + (if kk > 0 && bad_has(bad, n + 0int) { 1int } else { 0 })
            + (if kk > 1 && bad_has(bad, n + 1int) { 1int } else { 0 })
            + (if kk > 2 && bad_has(bad, n + 2int) { 1int } else { 0 }) <= bad.len(),
{
    let e0 = d;
    let e1 = if kk > 0 && bad_has(bad, n + 0int) { e0.push((n + 0) as usize) } else { e0 };
    let e2 = if kk > 1 && bad_has(bad, n + 1int) { e1.push((n + 1) as usize) } else { e1 };
    let e3 = if kk > 2 && bad_has(bad, n + 2int) { e2.push((n + 2) as usize) } else { e2 };
    assert forall|j: int| #[trigger] bad_has(bad, j) implies j <= usize::MAX by {
        let i = choose|i: int| 0 <= i < bad.len() && bad[i] as int == j;
    }
    assert forall|x: int| 0 <= x < d.len() implies bad_has(bad, #[trigger] d[x] as int) by {
        assert(d[x] < n);
        assert(d.contains(d[x]));
    }
    assert forall|x: int, y: int| 0 <= x < y < e3.len() implies e3[x] < e3[y] by {
        if y < d.len() {
        } else if x < d.len() {
            assert(d[x] < n);
        }
    }
    assert forall|x: int| 0 <= x < e3.len() implies bad_has(bad, #[trigger] e3[x] as int) by {
        if x < d.len() {
            assert(e3[x] == d[x]);
        }
    }
    lemma_distinct_sub(e3, bad);
}

/// A strictly increasing list whose entries all occur in `b` is no longer
/// than `b`.
proof fn lemma_distinct_sub(d: Seq<usize>, b: Seq<usize>)
    requires
        forall|x: int, y: int| 0 <= x < y < d.len() ==> d[x] < d[y],
        forall|x: int| 0 <= x < d.len() ==> bad_has(b, #[trigger] d[x] as int),
    ensures
        d.len() <= b.len(),
{
    let ds = d.to_set();
    let bs = b.to_set();
    assert(ds.subset_of(bs)) by {
        assert forall|v: usize| ds.contains(v) implies bs.contains(v) by {
            let x = choose|x: int| 0 <= x < d.len() && d[x] == v;
            assert(bad_has(b, d[x] as int));
            let i = choose|i: int| 0 <= i < b.len() && b[i] as int == d[x] as int;
            assert(b[i] == v);
        }
    }
    assert(d.no_duplicates()) by {
        assert forall|x: int, y: int| 0 <= x < d.len() && 0 <= y < d.len() && x != y implies d[x] != d[y] by {
            if x < y {
            } else {
            }
        }
    }
    d.unique_seq_to_set();
    b.lemma_cardinality_of_set();
    vstd::set_lib::lemma_len_subset(ds, bs);
}

/// The lost word of one block, from one parity: `delta / c`.
pub open spec fn solve_one(delta: nat, c: nat, m: nat, w: nat) -> nat {
    fdiv(delta, c, m, w)
}

/// The lost words `(dx, dy)` of two blocks, from the plain sum (`dp`) and a
/// weighted sum (`db`, weights `bx`, `by`).
pub open spec fn solve_p_and(dp: nat, db: nat, bx: nat, by: nat, m: nat, w: nat) -> (nat, nat) {
    let dx = fdiv(pxor(db, mulmod(dp, by, m)), pxor(bx, by), m, w);
    (dx, pxor(dp, dx))
}

/// The lost words `(dx, dy)` of two blocks, from the sums weighted by the
/// generator's powers (`dq`) and by their squares (`dr`).
pub open spec fn solve_q_r(dq: nat, dr: nat, gx: nat, gy: nat, m: nat, w: nat) -> (nat, nat) {
    let dx = fdiv(pxor(dr, mulmod(dq, gy, m)), mulmod(gx, pxor(gx, gy), m), m, w);
    (dx, fdiv(pxor(dq, mulmod(dx, gx, m)), gy, m, w))
}

/// The lost words `(dx, dy, dz)` of three blocks, from all three sums.
pub open spec fn solve_pqr(dp: nat, dq: nat, dr: nat, gx: nat, gy: nat, gz: nat, m: nat, w: nat) -> (nat, nat, nat) {
    let dx = fdiv(
        pxor(pxor(dr, mulmod(dq, pxor(gy, gz), m)), mulmod(mulmod(dp, gy, m), gz, m)),
        mulmod(pxor(gx, gy), pxor(gx, gz), m),
        m,
        w,
    );
    let dy = fdiv(pxor(pxor(dq, mulmod(dp, gz, m)), mulmod(dx, pxor(gx, gz), m)), pxor(gy, gz), m, w);
    (dx, dy, pxor(pxor(dp, dx), dy))
}

pub(crate) fn fadd(x: u128, y: u128, f: &FieldParams) -> (r: u128)
    requires
        f.wf(),
        (x as nat) < exp2(f.w()),
        (y as nat) < exp2(f.w()),
    ensures
        r as nat == pxor(x as nat, y as nat),
        (r as nat) < exp2(f.w()),
{
    add_words(x, y, Ghost(f.w()))
}

fn exec_solve_p_and(dp: u128, db: u128, bx: u128, by: u128, f: &FieldParams) -> (r: (u128, u128))
    requires
        f.wf(),
        (dp as nat) < exp2(f.w()),
        (db as nat) < exp2(f.w()),
        (bx as nat) < exp2(f.w()),
        (by as nat) < exp2(f.w()),
    ensures
        (r.0 as nat, r.1 as nat) == solve_p_and(dp as nat, db as nat, bx as nat, by as nat, f.m(), f.w()),
        (r.0 as nat) < exp2(f.w()),
        (r.1 as nat) < exp2(f.w()),
{
    let t = fmul(dp, by, f);
    let num = fadd(db, t, f);
    let den = fadd(bx, by, f);
    let dx = fdivide(num, den, f);
    (dx, fadd(dp, dx, f))
}

fn exec_solve_q_r(dq: u128, dr: u128, gx: u128, gy: u128, f: &FieldParams) -> (r: (u128, u128))
    requires
        f.wf(),
        (dq as nat) < exp2(f.w()),
        (dr as nat) < exp2(f.w()),
        (gx as nat) < exp2(f.w()),
        (gy as nat) < exp2(f.w()),
    ensures
        (r.0 as nat, r.1 as nat) == solve_q_r(dq as nat, dr as nat, gx as nat, gy as nat, f.m(), f.w()),
        (r.0 as nat) < exp2(f.w()),
        (r.1 as nat) < exp2(f.w()),
{
    let t = fmul(dq, gy, f);
    let num = fadd(dr, t, f);
    let s = fadd(gx, gy, f);
    let den = fmul(gx, s, f);
    let dx = fdivide(num, den, f);
    let u = fmul(dx, gx, f);
    let num2 = fadd(dq, u, f);
    (dx, fdivide(num2, gy, f))
}

fn exec_solve_pqr(dp: u128, dq: u128, dr: u128, gx: u128, gy: u128, gz: u128, f: &FieldParams) -> (r: (u128, u128, u128))
    requires
        f.wf(),
        (dp as nat) < exp2(f.w()),
        (dq as nat) < exp2(f.w()),
        (dr as nat) < exp2(f.w()),
        (gx as nat) < exp2(f.w()),
        (gy as nat) < exp2(f.w()),
        (gz as nat) < exp2(f.w()),
    ensures
        (r.0 as nat, r.1 as nat, r.2 as nat)
            == solve_pqr(dp as nat, dq as nat, dr as nat, gx as nat, gy as nat, gz as nat, f.m(), f.w()),
        (r.0 as nat) < exp2(f.w()),
        (r.1 as nat) < exp2(f.w()),
        (r.2 as nat) < exp2(f.w()),
{
    let syz = fadd(gy, gz, f);
    let sxy = fadd(gx, gy, f);
    let sxz = fadd(gx, gz, f);
    let a = fmul(dq, syz, f);
    let b0 = fmul(dp, gy, f);
    let b = fmul(b0, gz, f);
    let n0 = fadd(dr, a, f);
    let num = fadd(n0, b, f);
    let den = fmul(sxy, sxz, f);
    let dx = fdivide(num, den, f);
    let c = fmul(dp, gz, f);
    let e = fmul(dx, sxz, f);
    let n1 = fadd(dq, c, f);
    let num2 = fadd(n1, e, f);
    let dy = fdivide(num2, syz, f);
    let t = fadd(dp, dx, f);
    (dx, dy, fadd(t, dy, f))
}

/// What the blocks listed in `d` contribute to word `i` of parity block `k`:
/// the stored parity plus the parity of the other data blocks.
pub open spec fn delta_of<W: Word>(blocks: Seq<Vec<W>>, par: Seq<W>, k: nat, d: Seq<usize>, i: int, g: nat, m: nat) -> nat {
    pxor(par[i].nat_of(), parity(zeroed(column(blocks, i), d), g, k, m))
}

/// Whether `bad` lists parity block `k` of an array of `n` data blocks.
fn has_parity(bad: &[usize], n: usize, k: usize) -> (r: bool)
    ensures
        r == bad_has(bad@, n + k),
{
    let mut i: usize = 0;
    while i < bad.len()
        invariant
            0 <= i <= bad@.len(),
            forall|i2: int| 0 <= i2 < i ==> bad@[i2] as int != n + k,
        decreases bad@.len() - i,
    {
        if bad[i] >= n && bad[i] - n == k {
            return true;
        }
        i = i + 1;
    }
    false
}

/// The block of `len` zero words.
fn zero_block<W: Word>(len: usize, Ghost(w): Ghost<nat>) -> (v: Vec<W>)
    ensures
        v@.len() == len,
        block_ok(v@, w),
{
    proof {
        lemma_exp2_pos(w);
        lemma_exp2_pos(W::width_of());
    }
    let mut v: Vec<W> = Vec::new();
    let mut i: usize = 0;
    while i < len
        invariant
            0 <= i <= len,
            v@.len() == i,
            0 < exp2(w),
            0 < exp2(W::width_of()),
            block_ok(v@, w),
        decreases len - i,
    {
        v.push(W::of_u128(0));
        i = i + 1;
    }
    v
}

/// Rebuild block `x` from parity block `k`.
fn rebuild_one<W: Word>(blocks: &[Vec<W>], par: &Vec<W>, k: u32, x: usize, d: &Vec<usize>, f: &FieldParams) -> (v: Vec<W>)
    requires
        f.wf(),
        f.w() <= W::width_of(),
        blocks_ok(blocks@, par@.len(), f.w()),
        block_ok(par@, f.w()),
    ensures
        v@.len() == par@.len(),
        block_ok(v@, f.w()),
        forall|i: int| 0 <= i < v@.len() ==> (#[trigger] v@[i]).nat_of() == solve_one(
            delta_of(blocks@, par@, k as nat, d@, i, f.g(), f.m()),
            coef(f.g(), k as nat, x as nat, f.m()),
            f.m(),
            f.w(),
        ),
{
    let dl = deltas(blocks, par, k, d, f);
    let c = weight(f, k, x);
    let len = par.len();
    let mut v: Vec<W> = Vec::new();
    let mut i: usize = 0;
    proof {
        lemma_exp2_mono(f.w(), W::width_of());
    }
    while i < len
        invariant
            f.wf(),
            f.w() <= W::width_of(),
            exp2(f.w()) <= exp2(W::width_of()),
            len == par@.len(),
            dl@.len() == len,
            forall|i2: int| 0 <= i2 < len ==> (#[trigger] dl@[i2]) as nat
                == delta_of(blocks@, par@, k as nat, d@, i2, f.g(), f.m()),
            forall|i2: int| 0 <= i2 < len ==> ((#[trigger] dl@[i2]) as nat) < exp2(f.w()),
            c as nat == coef(f.g(), k as nat, x as nat, f.m()),
            (c as nat) < exp2(f.w()),
            0 <= i <= len,
            v@.len() == i,
            block_ok(v@, f.w()),
            forall|i2: int| 0 <= i2 < i ==> (#[trigger] v@[i2]).nat_of() == solve_one(
                delta_of(blocks@, par@, k as nat, d@, i2, f.g(), f.m()),
                coef(f.g(), k as nat, x as nat, f.m()),
                f.m(),
                f.w(),
            ),
        decreases len - i,
    {
        let t = fdivide(dl[i], c, f);
        v.push(W::of_u128(t));
        i = i + 1;
    }
    v
}

/// Rebuild blocks `x` and `y` from the plain parity `pp` and the weighted
/// parity `pb` (number `kb`).
fn rebuild_two_p<W: Word>(
    blocks: &[Vec<W>],
    pp: &Vec<W>,
    pb: &Vec<W>,
    kb: u32,
    x: usize,
    y: usize,
    d: &Vec<usize>,
    f: &FieldParams,
) -> (r: (Vec<W>, Vec<W>))
    requires
        f.wf(),
        f.w() <= W::width_of(),
        pb@.len() == pp@.len(),
        blocks_ok(blocks@, pp@.len(), f.w()),
        block_ok(pp@, f.w()),
        block_ok(pb@, f.w()),
    ensures
        r.0@.len() == pp@.len(),
        r.1@.len() == pp@.len(),
        block_ok(r.0@, f.w()),
        block_ok(r.1@, f.w()),
        forall|i: int| 0 <= i < pp@.len() ==> ((#[trigger] r.0@[i]).nat_of(), r.1@[i].nat_of()) == solve_p_and(
            delta_of(blocks@, pp@, 0, d@, i, f.g(), f.m()),
            delta_of(blocks@, pb@, kb as nat, d@, i, f.g(), f.m()),
            coef(f.g(), kb as nat, x as nat, f.m()),
            coef(f.g(), kb as nat, y as nat, f.m()),
            f.m(),
            f.w(),
        ),
{
    let dp = deltas(blocks, pp, 0, d, f);
    let db = deltas(blocks, pb, kb, d, f);
    let bx = weight(f, kb, x);
    let by = weight(f, kb, y);
    let len = pp.len();
    let mut vx: Vec<W> = Vec::new();
    let mut vy: Vec<W> = Vec::new();
    let mut i: usize = 0;
    proof {
        lemma_exp2_mono(f.w(), W::width_of());
    }
    while i < len
        invariant
            f.wf(),
            exp2(f.w()) <= exp2(W::width_of()),
            len == pp@.len(),
            dp@.len() == len,
            db@.len() == len,
            forall|i2: int| 0 <= i2 < len ==> (#[trigger] dp@[i2]) as nat == delta_of(blocks@, pp@, 0, d@, i2, f.g(), f.m()),
            forall|i2: int| 0 <= i2 < len ==> ((#[trigger] dp@[i2]) as nat) < exp2(f.w()),
            forall|i2: int| 0 <= i2 < len ==> (#[trigger] db@[i2]) as nat == delta_of(blocks@, pb@, kb as nat, d@, i2, f.g(), f.m()),
            forall|i2: int| 0 <= i2 < len ==> ((#[trigger] db@[i2]) as nat) < exp2(f.w()),
            bx as nat == coef(f.g(), kb as nat, x as nat, f.m()),
            by as nat == coef(f.g(), kb as nat, y as nat, f.m()),
            (bx as nat) < exp2(f.w()),
            (by as nat) < exp2(f.w()),
            0 <= i <= len,
            vx@.len() == i,
            vy@.len() == i,
            block_ok(vx@, f.w()),
            block_ok(vy@, f.w()),
            forall|i2: int| 0 <= i2 < i ==> ((#[trigger] vx@[i2]).nat_of(), vy@[i2].nat_of()) == solve_p_and(
                dp@[i2] as nat, db@[i2] as nat, bx as nat, by as nat, f.m(), f.w()),
        decreases len - i,
    {
        let (a, b) = exec_solve_p_and(dp[i], db[i], bx, by, f);
        vx.push(W::of_u128(a));
        vy.push(W::of_u128(b));
        i = i + 1;
    }
    (vx, vy)
}

/// Rebuild blocks `x` and `y` from the two weighted parities.
fn rebuild_two_qr<W: Word>(
    blocks: &[Vec<W>],
    pq: &Vec<W>,
    pr: &Vec<W>,
    x: usize,
    y: usize,
    d: &Vec<usize>,
    f: &FieldParams,
) -> (r: (Vec<W>, Vec<W>))
    requires
        f.wf(),
        f.w() <= W::width_of(),
        pr@.len() == pq@.len(),
        blocks_ok(blocks@, pq@.len(), f.w()),
        block_ok(pq@, f.w()),
        block_ok(pr@, f.w()),
    ensures
        r.0@.len() == pq@.len(),
        r.1@.len() == pq@.len(),
        block_ok(r.0@, f.w()),
        block_ok(r.1@, f.w()),
        forall|i: int| 0 <= i < pq@.len() ==> ((#[trigger] r.0@[i]).nat_of(), r.1@[i].nat_of()) == solve_q_r(
            delta_of(blocks@, pq@, 1, d@, i, f.g(), f.m()),
            delta_of(blocks@, pr@, 2, d@, i, f.g(), f.m()),
            coef(f.g(), 1, x as nat, f.m()),
            coef(f.g(), 1, y as nat, f.m()),
            f.m(),
            f.w(),
        ),
{
    let dq = deltas(blocks, pq, 1, d, f);
    let dr = deltas(blocks, pr, 2, d, f);
    let gx = weight(f, 1, x);
    let gy = weight(f, 1, y);
    let len = pq.len();
    let mut vx: Vec<W> = Vec::new();
    let mut vy: Vec<W> = Vec::new();
    let mut i: usize = 0;
    proof {
        lemma_exp2_mono(f.w(), W::width_of());
    }
    while i < len
        invariant
            f.wf(),
            exp2(f.w()) <= exp2(W::width_of()),
            len == pq@.len(),
            dq@.len() == len,
            dr@.len() == len,
            forall|i2: int| 0 <= i2 < len ==> (#[trigger] dq@[i2]) as nat == delta_of(blocks@, pq@, 1, d@, i2, f.g(), f.m()),
            forall|i2: int| 0 <= i2 < len ==> ((#[trigger] dq@[i2]) as nat) < exp2(f.w()),
            forall|i2: int| 0 <= i2 < len ==> (#[trigger] dr@[i2]) as nat == delta_of(blocks@, pr@, 2, d@, i2, f.g(), f.m()),
            forall|i2: int| 0 <= i2 < len ==> ((#[trigger] dr@[i2]) as nat) < exp2(f.w()),
            gx as nat == coef(f.g(), 1, x as nat, f.m()),
            gy as nat == coef(f.g(), 1, y as nat, f.m()),
            (gx as nat) < exp2(f.w()),
            (gy as nat) < exp2(f.w()),
            0 <= i <= len,
            vx@.len() == i,
            vy@.len() == i,
            block_ok(vx@, f.w()),
            block_ok(vy@, f.w()),
            forall|i2: int| 0 <= i2 < i ==> ((#[trigger] vx@[i2]).nat_of(), vy@[i2].nat_of()) == solve_q_r(
                dq@[i2] as nat, dr@[i2] as nat, gx as nat, gy as nat, f.m(), f.w()),
        decreases len - i,
    {
        let (a, b) = exec_solve_q_r(dq[i], dr[i], gx, gy, f);
        vx.push(W::of_u128(a));
        vy.push(W::of_u128(b));
        i = i + 1;
    }
    (vx, vy)
}

/// Rebuild blocks `x`, `y` and `z` from all three parities.
fn rebuild_three<W: Word>(
    blocks: &[Vec<W>],
    pp: &Vec<W>,
    pq: &Vec<W>,
    pr: &Vec<W>,
    x: usize,
    y: usize,
    z: usize,
    d: &Vec<usize>,
    f: &FieldParams,
) -> (r: (Vec<W>, Vec<W>, Vec<W>))
    requires
        f.wf(),
        f.w() <= W::width_of(),
        pq@.len() == pp@.len(),
        pr@.len() == pp@.len(),
        blocks_ok(blocks@, pp@.len(), f.w()),
        block_ok(pp@, f.w()),
        block_ok(pq@, f.w()),
        block_ok(pr@, f.w()),
    ensures
        r.0@.len() == pp@.len(),
        r.1@.len() == pp@.len(),
        r.2@.len() == pp@.len(),
        block_ok(r.0@, f.w()),
        block_ok(r.1@, f.w()),
        block_ok(r.2@, f.w()),
        forall|i: int| 0 <= i < pp@.len() ==> ((#[trigger] r.0@[i]).nat_of(), r.1@[i].nat_of(), r.2@[i].nat_of()) == solve_pqr(
            delta_of(blocks@, pp@, 0, d@, i, f.g(), f.m()),
            delta_of(blocks@, pq@, 1, d@, i, f.g(), f.m()),
            delta_of(blocks@, pr@, 2, d@, i, f.g(), f.m()),
            coef(f.g(), 1, x as nat, f.m()),
            coef(f.g(), 1, y as nat, f.m()),
            coef(f.g(), 1, z as nat, f.m()),
            f.m(),
            f.w(),
        ),
{
    let dp = deltas(blocks, pp, 0, d, f);
    let dq = deltas(blocks, pq, 1, d, f);
    let dr = deltas(blocks, pr, 2, d, f);
    let gx = weight(f, 1, x);
    let gy = weight(f, 1, y);
    let gz = weight(f, 1, z);
    let len = pp.len();
    let mut vx: Vec<W> = Vec::new();
    let mut vy: Vec<W> = Vec::new();
    let mut vz: Vec<W> = Vec::new();
    let mut i: usize = 0;
    proof {
        lemma_exp2_mono(f.w(), W::width_of());
    }
    while i < len
        invariant
            f.wf(),
            exp2(f.w()) <= exp2(W::width_of()),
            len == pp@.len(),
            dp@.len() == len,
            dq@.len() == len,
            dr@.len() == len,
            forall|i2: int| 0 <= i2 < len ==> (#[trigger] dp@[i2]) as nat == delta_of(blocks@, pp@, 0, d@, i2, f.g(), f.m()),
            forall|i2: int| 0 <= i2 < len ==> ((#[trigger] dp@[i2]) as nat) < exp2(f.w()),
            forall|i2: int| 0 <= i2 < len ==> (#[trigger] dq@[i2]) as nat == delta_of(blocks@, pq@, 1, d@, i2, f.g(), f.m()),
            forall|i2: int| 0 <= i2 < len ==> ((#[trigger] dq@[i2]) as nat) < exp2(f.w()),
            forall|i2: int| 0 <= i2 < len ==> (#[trigger] dr@[i2]) as nat == delta_of(blocks@, pr@, 2, d@, i2, f.g(), f.m()),
            forall|i2: int| 0 <= i2 < len ==> ((#[trigger] dr@[i2]) as nat) < exp2(f.w()),
            gx as nat == coef(f.g(), 1, x as nat, f.m()),
            gy as nat == coef(f.g(), 1, y as nat, f.m()),
            gz as nat == coef(f.g(), 1, z as nat, f.m()),
            (gx as nat) < exp2(f.w()),
            (gy as nat) < exp2(f.w()),
            (gz as nat) < exp2(f.w()),
            0 <= i <= len,
            vx@.len() == i,
            vy@.len() == i,
            vz@.len() == i,
            block_ok(vx@, f.w()),
            block_ok(vy@, f.w()),
            block_ok(vz@, f.w()),
            forall|i2: int| 0 <= i2 < i ==> ((#[trigger] vx@[i2]).nat_of(), vy@[i2].nat_of(), vz@[i2].nat_of()) == solve_pqr(
                dp@[i2] as nat, dq@[i2] as nat, dr@[i2] as nat, gx as nat, gy as nat, gz as nat, f.m(), f.w()),
        decreases len - i,
    {
        let (a, b, c) = exec_solve_pqr(dp[i], dq[i], dr[i], gx, gy, gz, f);
        vx.push(W::of_u128(a));
        vy.push(W::of_u128(b));
        vz.push(W::of_u128(c));
        i = i + 1;
    }
    (vx, vy, vz)
}

/// `a` lists the words of column `i` of a consistent array, data words
/// first and then parity words, that agrees with every block of the given
/// array that `bad` does not list.
pub open spec fn completes<W: Word>(
    a: Seq<nat>,
    blocks: Seq<Vec<W>>,
    pars: Seq<Seq<W>>,
    bad: Seq<usize>,
    i: int,
    g: nat,
    m: nat,
    w: nat,
) -> bool {
    let n = blocks.len();
    &&& a.len() == n + pars.len()
    &&& forall|j: int| 0 <= j < a.len() ==> #[trigger] a[j] < exp2(w)
    &&& forall|k: int| 0 <= k < pars.len()
        ==> a[n + k] == #[trigger] parity(a.subrange(0, n as int), g, k as nat, m)
    &&& forall|j: int| 0 <= j < n && !bad_has(bad, j) ==> a[j] == (#[trigger] blocks[j])@[i].nat_of()
    &&& forall|k: int| 0 <= k < pars.len() && !bad_has(bad, n + k)
        ==> a[n + k] == (#[trigger] pars[k])[i].nat_of()
}

/// Column `i` of the array holds the words `a`.
pub open spec fn holds<W: Word>(a: Seq<nat>, blocks: Seq<Vec<W>>, pars: Seq<Seq<W>>, i: int) -> bool {
    &&& forall|j: int| 0 <= j < blocks.len() ==> (#[trigger] blocks[j])@[i].nat_of() == a[j]
    &&& forall|k: int| 0 <= k < pars.len() ==> (#[trigger] pars[k])[i].nat_of() == a[blocks.len() + k]
}

/// The words of a single parity block.
pub open spec fn one_parity<W: Word>(p: Seq<W>) -> Seq<Seq<W>> {
    seq![p]
}

/// The words of two parity blocks.
pub open spec fn two_parities<W: Word>(p: Seq<W>, q: Seq<W>) -> Seq<Seq<W>> {
    seq![p, q]
}

/// The words of three parity blocks.
pub open spec fn three_parities<W: Word>(p: Seq<W>, q: Seq<W>, r: Seq<W>) -> Seq<Seq<W>> {
    seq![p, q, r]
}

/// The words of each block.
pub open spec fn views<W: Word>(v: Seq<Vec<W>>) -> Seq<Seq<W>> {
    v.map_values(|b: Vec<W>| b@)
}

/// What repair needs of the field: division undoes multiplication, the
/// weights of the `n` data blocks are non-zero and distinct, and so are
/// their squares when there are three parity blocks.
pub open spec fn raid_field_facts(g: nat, m: nat, w: nat, n: nat, kk: nat) -> bool {
    &&& crate::raid::algebra::field_inverts(m, w)
    &&& kk >= 2 ==> forall|x: nat| x < n ==> #[trigger] coef(g, 1, x, m) != 0
    &&& kk >= 2 ==> forall|x: nat, y: nat| x < n && y < n && x != y
        ==> #[trigger] coef(g, 1, x, m) != #[trigger] coef(g, 1, y, m)
    &&& kk >= 3 ==> forall|x: nat, y: nat| x < n && y < n && x != y
        ==> #[trigger] coef(g, 2, x, m) != #[trigger] coef(g, 2, y, m)
}

/// The data words of every column that has a consistent completion are the
/// completion's.
pub open spec fn data_restored<W: Word>(
    blocks: Seq<Vec<W>>,
    b0: Seq<Vec<W>>,
    p0: Seq<Seq<W>>,
    bad: Seq<usize>,
    len: nat,
    g: nat,
    m: nat,
    w: nat,
) -> bool {
    forall|i: int, a: Seq<nat>| 0 <= i < len && #[trigger] completes(a, b0, p0, bad, i, g, m, w)
        ==> forall|j: int| 0 <= j < b0.len() ==> (#[trigger] blocks[j])@[i].nat_of() == a[j]
}

/// `d` lists, in increasing order, exactly the data blocks that `bad` lists.
pub open spec fn lists_bad_data(d: Seq<usize>, bad: Seq<usize>, n: nat) -> bool {
    &&& forall|x: int, y: int| 0 <= x < y < d.len() ==> d[x] < d[y]
    &&& forall|j: int| 0 <= j < n ==> (d.contains(j as usize) <==> bad_has(bad, j))
    &&& forall|x: int| 0 <= x < d.len() ==> (#[trigger] d[x]) < n
}

/// Parity block `k` of `blocks`, a fresh block of `len` words.
fn parity_block<W: Word>(blocks: &[Vec<W>], len: usize, k: u32, f: &FieldParams) -> (t: Vec<W>)
    requires
        f.wf(),
        f.w() <= W::width_of(),
        blocks_ok(blocks@, len as nat, f.w()),
    ensures
        t@.len() == len,
        block_ok(t@, f.w()),
        forall|i: int| 0 <= i < len ==> (#[trigger] t@[i]).nat_of() == parity(column(blocks@, i), f.g(), k as nat, f.m()),
{
    let mut t: Vec<W> = zero_block(len, Ghost(f.w()));
    format_parity(blocks, t.as_mut_slice(), k, f);
    proof {
        assert forall|i: int| 0 <= i < t@.len() implies (#[trigger] t@[i]).nat_of() < exp2(f.w()) by {
            lemma_parity_bound(column(blocks@, i), f.g(), k as nat, f.m(), f.w());
        }
    }
    t
}

/// Rebuild the blocks of an array listed in `bad`, data blocks `0..n` first
/// and then the parity blocks, from the blocks that are not listed. Fails
/// when more blocks are listed than there are parity blocks.
pub fn repair_array<W: Word>(
    blocks: &mut [Vec<W>],
    pars: &mut Vec<Vec<W>>,
    bad: &[usize],
    len: usize,
    f: &FieldParams,
) -> (r: Result<(), RaidError>)
    requires
        f.wf(),
        f.w() <= W::width_of(),
        old(pars)@.len() <= 3,
        array_ok(old(blocks)@, old(pars)@, len as nat, f.w()),
    ensures
        r is Err <==> bad@.len() > old(pars)@.len(),
        r is Err ==> final(blocks)@ == old(blocks)@ && final(pars)@ == old(pars)@,
        final(blocks)@.len() == old(blocks)@.len(),
        final(pars)@.len() == old(pars)@.len(),
        array_ok(final(blocks)@, final(pars)@, len as nat, f.w()),
        forall|j: int| 0 <= j < old(blocks)@.len() && !bad_has(bad@, j)
            ==> #[trigger] final(blocks)@[j] == old(blocks)@[j],
        forall|k: int| 0 <= k < old(pars)@.len() && !bad_has(bad@, old(blocks)@.len() + k)
            ==> #[trigger] final(pars)@[k] == old(pars)@[k],
        r is Ok ==> forall|k: int, i: int| 0 <= k < old(pars)@.len() && bad_has(bad@, old(blocks)@.len() + k)
            && 0 <= i < len ==> (#[trigger] final(pars)@[k]@[i]).nat_of()
            == parity(column(final(blocks)@, i), f.g(), k as nat, f.m()),
        r is Ok && raid_field_facts(f.g(), f.m(), f.w(), old(blocks)@.len(), old(pars)@.len())
            ==> forall|i: int, a: Seq<nat>| 0 <= i < len
            && #[trigger] completes(a, old(blocks)@, views(old(pars)@), bad@, i, f.g(), f.m(), f.w())
            ==> holds(a, final(blocks)@, views(final(pars)@), i),
{
    let n = blocks.len();
    let kk = pars.len();
    if bad.len() > kk {
        return Err(RaidError::TooManyBadBlocks);
    }
    let d = bad_data(bad, n);
    let p0 = kk > 0 && has_parity(bad, n, 0);
    let p1 = kk > 1 && has_parity(bad, n, 1);
    let p2 = kk > 2 && has_parity(bad, n, 2);
    let ghost b0 = blocks@;
    let ghost pp = pars@;
    let ghost facts = raid_field_facts(f.g(), f.m(), f.w(), n as nat, kk as nat);
    proof {
        lemma_count_bad(bad@, d@, n as nat, kk as nat);
        assert(crate::raid::algebra::modulus_ok(f.m(), f.w()));
    }
    if d.len() == 1 {
        let x = d[0];
        if kk > 0 && !p0 {
            let v = rebuild_one(blocks, &pars[0], 0, x, &d, f);
            proof {
                if facts {
                    crate::raid::algebra::lemma_restore_one(b0, pp, bad@, d@, 0, v, len as nat, f.g(), f.m(), f.w());
                }
            }
            blocks[x] = v;
        } else if kk > 1 && !p1 {
            let v = rebuild_one(blocks, &pars[1], 1, x, &d, f);
            proof {
                if facts {
                    crate::raid::algebra::lemma_restore_one(b0, pp, bad@, d@, 1, v, len as nat, f.g(), f.m(), f.w());
                }
            }
            blocks[x] = v;
        } else if kk > 2 && !p2 {
            let v = rebuild_one(blocks, &pars[2], 2, x, &d, f);
            proof {
                if facts {
                    crate::raid::algebra::lemma_restore_one(b0, pp, bad@, d@, 2, v, len as nat, f.g(), f.m(), f.w());
                }
            }
            blocks[x] = v;
        }
    } else if d.len() == 2 {
        let x = d[0];
        let y = d[1];
        if kk > 1 && !p0 && !p1 {
            let (vx, vy) = rebuild_two_p(blocks, &pars[0], &pars[1], 1, x, y, &d, f);
            proof {
                if facts {
                    crate::raid::algebra::lemma_restore_two_p(b0, pp, bad@, d@, 1, vx, vy, len as nat, f.g(), f.m(), f.w());
                }
            }
            blocks[x] = vx;
            blocks[y] = vy;
        } else if kk > 2 && !p1 && !p2 {
            let (vx, vy) = rebuild_two_qr(blocks, &pars[1], &pars[2], x, y, &d, f);
            proof {
                if facts {
                    crate::raid::algebra::lemma_restore_two_qr(b0, pp, bad@, d@, vx, vy, len as nat, f.g(), f.m(), f.w());
                }
            }
            blocks[x] = vx;
            blocks[y] = vy;
        } else if kk > 2 && !p0 && !p2 {
            let (vx, vy) = rebuild_two_p(blocks, &pars[0], &pars[2], 2, x, y, &d, f);
            proof {
                if facts {
                    crate::raid::algebra::lemma_restore_two_p(b0, pp, bad@, d@, 2, vx, vy, len as nat, f.g(), f.m(), f.w());
                }
            }
            blocks[x] = vx;
            blocks[y] = vy;
        }
    } else if d.len() == 3 && kk > 2 && !p0 && !p1 && !p2 {
        let x = d[0];
        let y = d[1];
        let z = d[2];
        let (vx, vy, vz) = rebuild_three(blocks, &pars[0], &pars[1], &pars[2], x, y, z, &d, f);
        proof {
            if facts {
                crate::raid::algebra::lemma_restore_three(b0, pp, bad@, d@, vx, vy, vz, len as nat, f.g(), f.m(), f.w());
            }
        }
        blocks[x] = vx;
        blocks[y] = vy;
        blocks[z] = vz;
    } else {
        proof {
            crate::raid::algebra::lemma_restore_none(b0, pp, bad@, d@, len as nat, f.g(), f.m(), f.w());
        }
    }
    proof {
        assert forall|j: int| 0 <= j < n && !bad_has(bad@, j) implies #[trigger] blocks@[j] == b0[j] by {
            assert(!d@.contains(j as usize));
        }
    }
    let ghost b1 = blocks@;
    assert(facts ==> data_restored(b1, b0, views(pp), bad@, len as nat, f.g(), f.m(), f.w()));
    let ghost pars0 = pars@;
    let mut k: usize = 0;
    while k < kk
        invariant
            f.wf(),
            f.w() <= W::width_of(),
            n == blocks@.len(),
            kk == pars@.len(),
            kk <= 3,
            pars0.len() == kk,
            array_ok(blocks@, pars@, len as nat, f.w()),
            0 <= k <= kk,
            forall|k2: int| k <= k2 < kk ==> #[trigger] pars@[k2] == pars0[k2],
            blocks@ == b1,
            forall|k2: int| 0 <= k2 < k && !bad_has(bad@, n + k2) ==> #[trigger] pars@[k2] == pars0[k2],
            forall|k2: int, i: int| 0 <= k2 < k && bad_has(bad@, n + k2) && 0 <= i < len
                ==> (#[trigger] pars@[k2]@[i]).nat_of() == parity(column(blocks@, i), f.g(), k2 as nat, f.m()),
        decreases kk - k,
    {
        if has_parity(bad, n, k) {
            let t = parity_block(blocks, len, k as u32, f);
            pars.set(k, t);
        }
        k = k + 1;
    }
    proof {
        if facts {
            assert forall|i: int, a: Seq<nat>| 0 <= i < len && #[trigger] completes(a, b0, views(pp), bad@, i, f.g(), f.m(), f.w())
                implies holds(a, blocks@, views(pars@), i) by {
                assert forall|j: int| 0 <= j < n implies (#[trigger] blocks@[j])@[i].nat_of() == a[j] by {
                    assert(data_restored(b1, b0, views(pp), bad@, len as nat, f.g(), f.m(), f.w()));
                }
                assert(column(blocks@, i) =~= a.subrange(0, n as int));
                assert forall|k2: int| 0 <= k2 < kk implies (#[trigger] views(pars@)[k2])[i].nat_of() == a[n + k2] by {
                    assert(a[n + k2] == parity(a.subrange(0, n as int), f.g(), k2 as nat, f.m()));
                    if !bad_has(bad@, n + k2) {
                        assert(views(pp)[k2] == pp[k2]@);
                        assert(a[n + k2] == views(pp)[k2][i].nat_of());
                    }
                }
            }
        }
    }
    Ok(())
}

/// Parities of reduced words are reduced.
proof fn lemma_parity_bound(c: Seq<nat>, g: nat, k: nat, m: nat, w: nat)
    requires
        bitlen(m) == w + 1,
    ensures
        parity(c, g, k, m) < exp2(w),
    decreases c.len(),
{
    lemma_exp2_pos(w);
    if c.len() > 0 {
        lemma_parity_bound(c.drop_last(), g, k, m, w);
        crate::poly::lemma_pmod_bound(pmul(c.last(), coef(g, k, (c.len() - 1) as nat, m)), m);
        lemma_pxor_bound(parity(c.drop_last(), g, k, m), mulmod(c.last(), coef(g, k, (c.len() - 1) as nat, m), m), w);
    }
}

/// What repair needs of `GF(2^8)` defined by `0x11d` with generator `2`:
/// for one parity block, with any number of data blocks; for more, with
/// up to 255 data blocks.
pub proof fn lemma_gf256_raid_facts(n: nat, kk: nat)
    requires
        kk <= 1 || n <= 255,
    ensures
        raid_field_facts(2, 0x11d, 8, n, kk),
{
    assert(bitlen(0x11d) == 9) by {
        reveal_with_fuel(bitlen, 11);
    }
    assert(exp2(8) == 0x100) by {
        reveal_with_fuel(exp2, 10);
    }
    assert forall|b: nat| 0 < b < exp2(8) implies #[trigger] powmod(b, (exp2(8) - 1) as nat, 0x11d) == 1 by {
        crate::groups::lemma_gf256_order(b);
    }
    if kk >= 2 {
        assert forall|x: nat| x < n implies #[trigger] coef(2, 1, x, 0x11d) != 0 by {
            crate::raid::algebra::lemma_coef_facts(2, x, 0x11d, 8);
            crate::groups::lemma_gf256_powers(x, x);
        }
        assert forall|x: nat, y: nat| x < n && y < n && x != y
            implies #[trigger] coef(2, 1, x, 0x11d) != #[trigger] coef(2, 1, y, 0x11d) by {
            crate::raid::algebra::lemma_coef_facts(2, x, 0x11d, 8);
            crate::raid::algebra::lemma_coef_facts(2, y, 0x11d, 8);
            crate::groups::lemma_gf256_powers(x, y);
        }
        assert forall|x: nat, y: nat| x < n && y < n && x != y
            implies #[trigger] coef(2, 2, x, 0x11d) != #[trigger] coef(2, 2, y, 0x11d) by {
            crate::groups::lemma_gf256_square_powers(x, y);
        }
    }
}

/// What repair needs of `GF(2^4)` defined by `0x13` with generator `2`, for
/// up to 15 data blocks.
pub proof fn lemma_gf16_raid_facts(n: nat, kk: nat)
    requires
        n <= 15,
    ensures
        raid_field_facts(2, 0x13, 4, n, kk),
{
    assert(bitlen(0x13) == 5) by {
        reveal_with_fuel(bitlen, 7);
    }
    assert(exp2(4) == 0x10) by {
        reveal_with_fuel(exp2, 6);
    }
    assert forall|b: nat| 0 < b < exp2(4) implies #[trigger] powmod(b, (exp2(4) - 1) as nat, 0x13) == 1 by {
        crate::groups::lemma_gf16_order(b);
    }
    assert forall|x: nat| x < n implies #[trigger] coef(2, 1, x, 0x13) != 0 by {
        crate::raid::algebra::lemma_coef_facts(2, x, 0x13, 4);
        crate::groups::lemma_gf16_powers(x, x);
    }
    assert forall|x: nat, y: nat| x < n && y < n && x != y
        implies #[trigger] coef(2, 1, x, 0x13) != #[trigger] coef(2, 1, y, 0x13) by {
        crate::raid::algebra::lemma_coef_facts(2, x, 0x13, 4);
        crate::raid::algebra::lemma_coef_facts(2, y, 0x13, 4);
        crate::groups::lemma_gf16_powers(x, y);
    }
    assert forall|x: nat, y: nat| x < n && y < n && x != y
        implies #[trigger] coef(2, 2, x, 0x13) != #[trigger] coef(2, 2, y, 0x13) by {
        crate::groups::lemma_gf16_square_powers(x, y);
    }
}

/// What repair needs of a field whose generator `g` has order `2^w - 1`,
/// for up to `2^w - 1` data blocks: the weights `g^x` are non-zero and
/// distinct, and so are their squares `g^(2x)`, since `2^w - 1` is odd.
proof fn lemma_raid_facts_of_order(g: nat, m: nat, w: nat, n: nat, kk: nat)
    requires
        bitlen(m) == w + 1,
        w >= 1,
        crate::raid::algebra::field_inverts(m, w),
        powmod(g, (exp2(w) - 1) as nat, m) == 1,
        forall|x: nat| x < exp2(w) - 1 ==> #[trigger] powmod(g, x, m) != 0,
        forall|x: nat, y: nat| x < exp2(w) - 1 && y < exp2(w) - 1 && x != y
            ==> #[trigger] powmod(g, x, m) != #[trigger] powmod(g, y, m),
        n <= exp2(w) - 1,
    ensures
        raid_field_facts(g, m, w, n, kk),
{
    let nn = (exp2(w) - 1) as nat;
    assert(exp2(w) == 2 * exp2((w - 1) as nat));
    assert forall|x: nat| x < n implies #[trigger] coef(g, 1, x, m) != 0 by {
        crate::raid::algebra::lemma_coef_facts(g, x, m, w);
    }
    assert forall|x: nat, y: nat| x < n && y < n && x != y
        implies #[trigger] coef(g, 1, x, m) != #[trigger] coef(g, 1, y, m) by {
        crate::raid::algebra::lemma_coef_facts(g, x, m, w);
        crate::raid::algebra::lemma_coef_facts(g, y, m, w);
    }
    assert forall|x: nat, y: nat| x < n && y < n && x != y
        implies #[trigger] coef(g, 2, x, m) != #[trigger] coef(g, 2, y, m) by {
        crate::field::lemma_powmod_pow(g, x, 2, m);
        crate::field::lemma_powmod_pow(g, y, 2, m);
        let ex: nat = if x * 2 >= nn { (x * 2 - nn) as nat } else { x * 2 };
        let ey: nat = if y * 2 >= nn { (y * 2 - nn) as nat } else { y * 2 };
        if x * 2 >= nn {
            crate::field::lemma_powmod_period(g, x * 2, nn, m, w);
        }
        if y * 2 >= nn {
            crate::field::lemma_powmod_period(g, y * 2, nn, m, w);
        }
        assert(ex != ey);
        assert(powmod(g, ex, m) != powmod(g, ey, m));
    }
}

/// What repair needs of `GF(2^23)` defined by `0x800021` with generator
/// `2`, for up to `2^23 - 1` data blocks.
pub proof fn lemma_gf2p23_raid_facts(n: nat, kk: nat)
    requires
        n <= 0x7fffff,
    ensures
        raid_field_facts(2, 0x800021, 23, n, kk),
{
    crate::order::lemma_gf2p23_sizes();
    crate::order::lemma_gf2p23_field();
    crate::order::lemma_gf2p23_generator();
    lemma_raid_facts_of_order(2, 0x800021, 23, n, kk);
}

/// What repair needs of `GF(2^64)` defined by `0x1000000000000001b` with
/// generator `2`, for up to `2^64 - 1` data blocks.
pub proof fn lemma_gf2p64_raid_facts(n: nat, kk: nat)
    requires
        n <= 0xffffffffffffffff,
    ensures
        raid_field_facts(2, 0x1000000000000001b, 64, n, kk),
{
    crate::order::lemma_gf2p64_sizes();
    crate::order::lemma_gf2p64_field();
    crate::order::lemma_gf2p64_generator();
    lemma_raid_facts_of_order(2, 0x1000000000000001b, 64, n, kk);
}

/// Column `i` of a whole array: the data words, then the parity words.
pub open spec fn array_column<W: Word>(data: Seq<Vec<W>>, pars: Seq<Seq<W>>, i: int) -> Seq<nat> {
    column(data, i) + Seq::new(pars.len(), |k: int| pars[k][i].nat_of())
}

/// A formatted column completes the array after the loss of the blocks
/// that `bad` lists.
proof fn lemma_formatted_completes<W: Word>(
    data: Seq<Vec<W>>,
    pars: Seq<Seq<W>>,
    damaged: Seq<Vec<W>>,
    dpars: Seq<Seq<W>>,
    bad: Seq<usize>,
    len: nat,
    i: int,
    g: nat,
    m: nat,
    w: nat,
)
    requires
        blocks_ok(data, len, w),
        forall|k: int, i: int| 0 <= k < pars.len() && 0 <= i < len
            ==> (#[trigger] pars[k][i]).nat_of() == parity(column(data, i), g, k as nat, m),
        forall|k: int, i: int| 0 <= k < pars.len() && 0 <= i < len ==> (#[trigger] pars[k][i]).nat_of() < exp2(w),
        damaged.len() == data.len(),
        dpars.len() == pars.len(),
        forall|j: int| 0 <= j < data.len() && !bad_has(bad, j) ==> #[trigger] damaged[j] == data[j],
        forall|k: int| 0 <= k < pars.len() && !bad_has(bad, data.len() + k) ==> #[trigger] dpars[k] == pars[k],
        0 <= i < len,
    ensures
        completes(array_column(data, pars, i), damaged, dpars, bad, i, g, m, w),
{
    let n = data.len();
    let col = column(data, i);
    let a = array_column(data, pars, i);
    assert(a.subrange(0, n as int) =~= col);
    assert forall|j: int| 0 <= j < a.len() implies #[trigger] a[j] < exp2(w) by {
        if j < n {
            assert(data[j]@[i].nat_of() < exp2(w));
        } else {
            assert(pars[j - n][i].nat_of() < exp2(w));
        }
    }
    assert forall|k: int| 0 <= k < pars.len()
        implies a[n + k] == #[trigger] parity(a.subrange(0, n as int), g, k as nat, m) by {
        assert(pars[k][i].nat_of() == parity(column(data, i), g, k as nat, m));
    }
    assert forall|j: int| 0 <= j < n && !bad_has(bad, j) implies a[j] == (#[trigger] damaged[j])@[i].nat_of() by {
        assert(damaged[j] == data[j]);
    }
    assert forall|k: int| 0 <= k < pars.len() && !bad_has(bad, n + k)
        implies a[n + k] == (#[trigger] dpars[k])[i].nat_of() by {
        assert(dpars[k] == pars[k]);
    }
}

/// The round trip of an array: formatting the parities of `data`, losing
/// the blocks that `bad` lists (any words may stand there afterwards) and
/// repairing as `repair_array` and the modules' `repair` do when they
/// return `Ok` gives every data and parity word back.
pub proof fn lemma_round_trip<W: Word>(
    data: Seq<Vec<W>>,
    pars: Seq<Seq<W>>,
    damaged: Seq<Vec<W>>,
    dpars: Seq<Seq<W>>,
    repaired: Seq<Vec<W>>,
    rpars: Seq<Seq<W>>,
    bad: Seq<usize>,
    len: nat,
    g: nat,
    m: nat,
    w: nat,
)
    requires
        blocks_ok(data, len, w),
        forall|k: int, i: int| 0 <= k < pars.len() && 0 <= i < len
            ==> (#[trigger] pars[k][i]).nat_of() == parity(column(data, i), g, k as nat, m),
        forall|k: int, i: int| 0 <= k < pars.len() && 0 <= i < len ==> (#[trigger] pars[k][i]).nat_of() < exp2(w),
        damaged.len() == data.len(),
        dpars.len() == pars.len(),
        forall|j: int| 0 <= j < data.len() && !bad_has(bad, j) ==> #[trigger] damaged[j] == data[j],
        forall|k: int| 0 <= k < pars.len() && !bad_has(bad, data.len() + k) ==> #[trigger] dpars[k] == pars[k],
        repaired.len() == data.len(),
        rpars.len() == pars.len(),
        forall|i: int, a: Seq<nat>| 0 <= i < len && #[trigger] completes(a, damaged, dpars, bad, i, g, m, w)
            ==> holds(a, repaired, rpars, i),
    ensures
        forall|j: int, i: int| 0 <= j < data.len() && 0 <= i < len
            ==> (#[trigger] repaired[j]@[i]).nat_of() == data[j]@[i].nat_of(),
        forall|k: int, i: int| 0 <= k < pars.len() && 0 <= i < len
            ==> (#[trigger] rpars[k][i]).nat_of() == pars[k][i].nat_of(),
{
    let n = data.len();
    assert forall|j: int, i: int| 0 <= j < n && 0 <= i < len
        implies (#[trigger] repaired[j]@[i]).nat_of() == data[j]@[i].nat_of() by {
        lemma_formatted_completes(data, pars, damaged, dpars, bad, len, i, g, m, w);
        let a = array_column(data, pars, i);
        assert(holds(a, repaired, rpars, i));
        assert(a[j] == column(data, i)[j]);
    }
    assert forall|k: int, i: int| 0 <= k < pars.len() && 0 <= i < len
        implies (#[trigger] rpars[k][i]).nat_of() == pars[k][i].nat_of() by {
        lemma_formatted_completes(data, pars, damaged, dpars, bad, len, i, g, m, w);
        let a = array_column(data, pars, i);
        assert(holds(a, repaired, rpars, i));
        assert(a[n + k] == pars[k][i].nat_of());
    }
}

} // verus!
