//! Reed-Solomon error correction.
//!
//! A codeword of `n` words is read as a polynomial over the field, first
//! word first (highest degree first). Encoding appends `ecc` words to the
//! data so that the codeword is a multiple of the generator polynomial
//! `G(x) = (x + g^0)(x + g^1)...(x + g^(ecc-1))`, that is so that its
//! syndromes, its values at `g^0 .. g^(ecc-1)`, are all zero. Decoding
//! finds and repairs words at known positions (erasures) or unknown ones
//! (errors), and accepts a repair only when all syndromes are zero again.
//! The modules below fix the field, the word type and the sizes.

use vstd::prelude::*;
use crate::poly::{exp2, bitlen, pxor, mulmod, powmod, lemma_exp2_pos, lemma_exp2_mono};
use crate::arith::powmod_u128;
use crate::raid::{FieldParams, Word, words, block_ok, fmul, fadd, fdivide, fdiv};
use crate::poly::{lemma_pxor_zero, lemma_pxor_self};
use crate::rs::distance::{rs_field_facts, lemma_codewords_apart, point};
use crate::rs::bm::lc;
use crate::rs::forney::{locator, erasure_points, geo, ssum, osum, dsum, magnitude, forney_all, forney_step};
use crate::rs::algebra::{
    seq_xor, clear_front, lemma_encode_step, lemma_syndrome_sum,
};

pub mod algebra;
pub mod distance;
pub mod forney;
pub mod bm;
pub mod rs255w223;
pub mod rs26w16;
pub mod rs64w8;
pub mod rs26w16_all_params;
pub mod gf16_rs15w8;
pub mod gf2p23_rs26w16;
pub mod gf2p64_rs26w16;

verus! {

/// Why a correction was refused.
#[derive(Clone, Copy, Debug, PartialEq, Eq, Structural)]
pub enum RsError {
    /// There were more errors or erasures than the code can repair.
    TooManyErrors,
}

/// The value at `x` of the polynomial `c`, first word the highest
/// coefficient: `((c[0] x + c[1]) x + ...) x + c[n-1]`.
pub open spec fn beval(c: Seq<nat>, x: nat, m: nat) -> nat
    decreases c.len(),
{
    if c.len() == 0 {
        0
    } else {
        pxor(mulmod(beval(c.drop_last(), x, m), x, m), c.last())
    }
}

/// Syndrome `i` of a codeword: its value at `g^i`.
pub open spec fn syndrome(c: Seq<nat>, i: nat, g: nat, m: nat) -> nat {
    beval(c, powmod(g, i, m), m)
}

/// All `ecc` syndromes of `c` are zero: `c` is a codeword.
pub open spec fn is_codeword(c: Seq<nat>, ecc: nat, g: nat, m: nat) -> bool {
    forall|i: nat| i < ecc ==> #[trigger] syndrome(c, i, g, m) == 0
}

/// The numbers held in a vector of words of the computation.
pub open spec fn nats(v: Seq<u128>) -> Seq<nat> {
    v.map_values(|x: u128| x as nat)
}

/// Every entry is a field element.
pub open spec fn reduced(v: Seq<u128>, w: nat) -> bool {
    forall|i: int| 0 <= i < v.len() ==> ((#[trigger] v[i]) as nat) < exp2(w)
}

/// The value of the polynomial `f` (highest coefficient first) at `x`.
fn poly_eval(f: &Vec<u128>, x: u128, fp: &FieldParams) -> (y: u128)
    requires
        fp.wf(),
        (x as nat) < exp2(fp.w()),
        reduced(f@, fp.w()),
    ensures
        y as nat == beval(nats(f@), x as nat, fp.m()),
        (y as nat) < exp2(fp.w()),
{
    proof {
        lemma_exp2_pos(fp.w());
        assert(nats(f@).subrange(0, 0) =~= Seq::<nat>::empty());
    }
    let mut y: u128 = 0;
    let mut i: usize = 0;
    while i < f.len()
        invariant
            fp.wf(),
            (x as nat) < exp2(fp.w()),
            reduced(f@, fp.w()),
            0 <= i <= f@.len(),
            y as nat == beval(nats(f@).subrange(0, i as int), x as nat, fp.m()),
            (y as nat) < exp2(fp.w()),
        decreases f@.len() - i,
    {
        let t = fmul(y, x, fp);
        y = fadd(t, f[i], fp);
        proof {
            assert(nats(f@).subrange(0, i + 1).drop_last() =~= nats(f@).subrange(0, i as int));
        }
        i = i + 1;
    }
    proof {
        assert(nats(f@).subrange(0, f@.len() as int) =~= nats(f@));
    }
    y
}

/// The words of a block as numbers of the computation.
fn to_u128s<W: Word>(c: &[W], Ghost(w): Ghost<nat>) -> (v: Vec<u128>)
    requires
        block_ok(c@, w),
    ensures
        nats(v@) == words(c@),
        reduced(v@, w),
{
    let mut v: Vec<u128> = Vec::new();
    let mut i: usize = 0;
    while i < c.len()
        invariant
            block_ok(c@, w),
            0 <= i <= c@.len(),
            v@.len() == i,
            forall|j: int| 0 <= j < i ==> (#[trigger] v@[j]) as nat == c@[j].nat_of(),
            reduced(v@, w),
        decreases c@.len() - i,
    {
        v.push(c[i].to_u128());
        i = i + 1;
    }
    proof {
        assert(nats(v@) =~= words(c@));
    }
    v
}

/// `g^e` in the field.
fn gpow(e: usize, fp: &FieldParams) -> (r: u128)
    requires
        fp.wf(),
    ensures
        r as nat == powmod(fp.g(), e as nat, fp.m()),
        (r as nat) < exp2(fp.w()),
{
    powmod_u128(fp.generator, e as u128, fp.poly, fp.width)
}

/// The `ecc` syndromes of the codeword `c`.
fn syndromes(c: &Vec<u128>, ecc: usize, fp: &FieldParams) -> (s: Vec<u128>)
    requires
        fp.wf(),
        reduced(c@, fp.w()),
    ensures
        s@.len() == ecc,
        reduced(s@, fp.w()),
        forall|i: int| 0 <= i < ecc ==> (#[trigger] s@[i]) as nat == syndrome(nats(c@), i as nat, fp.g(), fp.m()),
{
    let mut s: Vec<u128> = Vec::new();
    let mut i: usize = 0;
    while i < ecc
        invariant
            fp.wf(),
            reduced(c@, fp.w()),
            0 <= i <= ecc,
            s@.len() == i,
            reduced(s@, fp.w()),
            forall|j: int| 0 <= j < i ==> (#[trigger] s@[j]) as nat == syndrome(nats(c@), j as nat, fp.g(), fp.m()),
        decreases ecc - i,
    {
        let x = gpow(i, fp);
        let y = poly_eval(c, x, fp);
        s.push(y);
        i = i + 1;
    }
    s
}

/// Whether every entry is zero.
fn all_zero(s: &Vec<u128>) -> (r: bool)
    ensures
        r == forall|i: int| 0 <= i < s@.len() ==> #[trigger] s@[i] == 0,
{
    let mut i: usize = 0;
    while i < s.len()
        invariant
            0 <= i <= s@.len(),
            forall|j: int| 0 <= j < i ==> #[trigger] s@[j] == 0,
        decreases s@.len() - i,
    {
        if s[i] != 0 {
            return false;
        }
        i = i + 1;
    }
    true
}

/// Whether `c` is a codeword, that is whether its syndromes are all zero.
fn codeword_check(c: &Vec<u128>, ecc: usize, fp: &FieldParams) -> (r: bool)
    requires
        fp.wf(),
        reduced(c@, fp.w()),
    ensures
        r == is_codeword(nats(c@), ecc as nat, fp.g(), fp.m()),
{
    let s = syndromes(c, ecc, fp);
    let r = all_zero(&s);
    proof {
        if r {
            assert forall|i: nat| i < ecc implies #[trigger] syndrome(nats(c@), i, fp.g(), fp.m()) == 0 by {
                assert(s@[i as int] == 0);
            }
        } else {
            let j = choose|j: int| 0 <= j < s@.len() && s@[j] != 0;
            assert(syndrome(nats(c@), j as nat, fp.g(), fp.m()) != 0);
        }
    }
    r
}

/// Whether the words of `c` form a codeword.
pub fn is_correct<W: Word>(c: &[W], ecc: usize, fp: &FieldParams) -> (r: bool)
    requires
        fp.wf(),
        block_ok(c@, fp.w()),
    ensures
        r == is_codeword(words(c@), ecc as nat, fp.g(), fp.m()),
{
    let v = to_u128s(c, Ghost(fp.w()));
    codeword_check(&v, ecc, fp)
}

/// `f` times `x + r`, highest coefficient first.
pub open spec fn mul_linear(f: Seq<nat>, r: nat, m: nat) -> Seq<nat> {
    Seq::new(f.len() + 1, |i: int| pxor(
        if i < f.len() { f[i] } else { 0 },
        if i >= 1 { mulmod(r, f[i - 1], m) } else { 0 },
    ))
}

/// The generator polynomial `(x + g^0)(x + g^1)...(x + g^(k-1))`, highest
/// coefficient first.
pub open spec fn generator_poly(k: nat, g: nat, m: nat) -> Seq<nat>
    decreases k,
{
    if k == 0 {
        seq![1]
    } else {
        mul_linear(generator_poly((k - 1) as nat, g, m), powmod(g, (k - 1) as nat, m), m)
    }
}

/// One step of synthetic division by the monic `gp` at position `i`:
/// subtract `h[i]` times `gp`, aligned at `i`.
pub open spec fn div_step(h: Seq<nat>, gp: Seq<nat>, i: int, m: nat) -> Seq<nat> {
    if h[i] == 0 {
        h
    } else {
        Seq::new(h.len(), |t: int| if i < t < i + gp.len() { pxor(h[t], mulmod(h[i], gp[t - i], m)) } else { h[t] })
    }
}

/// Synthetic division of `f` by the monic `gp`, after `i` steps: the
/// remainder ends up in the last `gp.len() - 1` words.
pub open spec fn synth_div(f: Seq<nat>, gp: Seq<nat>, i: nat, m: nat) -> Seq<nat>
    decreases i,
{
    if i == 0 {
        f
    } else {
        div_step(synth_div(f, gp, (i - 1) as nat, m), gp, (i - 1) as int, m)
    }
}

/// The first `d` words of `c` followed by zeros.
pub open spec fn zero_tail(c: Seq<nat>, d: nat) -> Seq<nat> {
    Seq::new(c.len(), |i: int| if i < d { c[i] } else { 0 })
}

/// The generator polynomial with `ecc` roots.
fn gen_poly(ecc: usize, fp: &FieldParams) -> (r: Vec<u128>)
    requires
        fp.wf(),
        ecc < usize::MAX,
    ensures
        nats(r@) == generator_poly(ecc as nat, fp.g(), fp.m()),
        reduced(r@, fp.w()),
        r@.len() == ecc + 1,
{
    proof {
        lemma_exp2_pos(fp.w());
        lemma_exp2_mono(1, fp.w());
        assert(exp2(1) == 2 * exp2(0));
        assert(nats(seq![1u128]) =~= seq![1nat]);
    }
    let mut gp: Vec<u128> = Vec::new();
    gp.push(1);
    let mut k: usize = 0;
    while k < ecc
        invariant
            fp.wf(),
            ecc < usize::MAX,
            0 <= k <= ecc,
            gp@.len() == k + 1,
            nats(gp@) == generator_poly(k as nat, fp.g(), fp.m()),
            reduced(gp@, fp.w()),
        decreases ecc - k,
    {
        let r = gpow(k, fp);
        let n = gp.len();
        let mut next: Vec<u128> = Vec::new();
        let mut i: usize = 0;
        let ghost f = nats(gp@);
        while i <= n
            invariant
                fp.wf(),
                n == gp@.len(),
                n == k + 1,
                k < ecc,
                ecc < usize::MAX,
                f == nats(gp@),
                reduced(gp@, fp.w()),
                r as nat == powmod(fp.g(), k as nat, fp.m()),
                (r as nat) < exp2(fp.w()),
                0 <= i <= n + 1,
                next@.len() == i,
                reduced(next@, fp.w()),
                forall|t: int| 0 <= t < i ==> (#[trigger] next@[t]) as nat == mul_linear(f, r as nat, fp.m())[t],
            decreases n + 1 - i,
        {
            let a: u128 = if i < n { gp[i] } else { 0 };
            let b: u128 = if i >= 1 { fmul(r, gp[i - 1], fp) } else { 0 };
            proof {
                lemma_exp2_pos(fp.w());
            }
            let c = fadd(a, b, fp);
            next.push(c);
            i = i + 1;
        }
        proof {
            assert(nats(next@) =~= mul_linear(f, r as nat, fp.m()));
        }
        gp = next;
        k = k + 1;
    }
    gp
}

/// One step of synthetic division by the monic `gp`, in place, at
/// position `i`.
fn divide_step(h: &mut Vec<u128>, gp: &Vec<u128>, i: usize, fp: &FieldParams)
    requires
        fp.wf(),
        reduced(old(h)@, fp.w()),
        reduced(gp@, fp.w()),
        gp@.len() >= 1,
        i + gp@.len() <= old(h)@.len(),
    ensures
        final(h)@.len() == old(h)@.len(),
        reduced(final(h)@, fp.w()),
        nats(final(h)@) == div_step(nats(old(h)@), nats(gp@), i as int, fp.m()),
{
    let ghost h0 = nats(h@);
    let ghost gs = nats(gp@);
    let len = h.len();
    let c = h[i];
    if c != 0 {
        let mut j: usize = 1;
        while j < gp.len()
            invariant
                fp.wf(),
                len == h@.len(),
                gs == nats(gp@),
                reduced(gp@, fp.w()),
                reduced(h@, fp.w()),
                i + gp@.len() <= len,
                c as nat == h0[i as int],
                (c as nat) < exp2(fp.w()),
                c != 0,
                h0.len() == len,
                1 <= j <= gp@.len(),
                forall|t: int| 0 <= t < len ==> (#[trigger] h@[t]) as nat == (if i < t < i + j {
                    pxor(h0[t], mulmod(h0[i as int], gs[t - i], fp.m()))
                } else {
                    h0[t]
                }),
            decreases gp@.len() - j,
        {
            let t = fmul(c, gp[j], fp);
            let y = fadd(h[i + j], t, fp);
            h.set(i + j, y);
            j = j + 1;
        }
        proof {
            assert(nats(h@) =~= div_step(h0, gs, i as int, fp.m()));
        }
    } else {
        proof {
            assert(nats(h@) =~= div_step(h0, gs, i as int, fp.m()));
        }
    }
}

/// Append to the data at the front of `message` the `ecc` words that make
/// it a codeword: the remainder of the data, followed by `ecc` zeros,
/// divided by the generator polynomial.
#[verifier::rlimit(40)]
pub fn encode<W: Word>(message: &mut [W], ecc: usize, fp: &FieldParams)
    requires
        fp.wf(),
        fp.w() <= W::width_of(),
        ecc <= old(message)@.len(),
        ecc < usize::MAX,
        block_ok(old(message)@, fp.w()),
    ensures
        final(message)@.len() == old(message)@.len(),
        block_ok(final(message)@, fp.w()),
        forall|i: int| 0 <= i < old(message)@.len() - ecc ==> #[trigger] final(message)@[i] == old(message)@[i],
        forall|i: int| old(message)@.len() - ecc <= i < old(message)@.len() ==> (#[trigger] final(message)@[i]).nat_of()
            == synth_div(
                zero_tail(words(old(message)@), (old(message)@.len() - ecc) as nat),
                generator_poly(ecc as nat, fp.g(), fp.m()),
                (old(message)@.len() - ecc) as nat,
                fp.m(),
            )[i],
        is_codeword(words(final(message)@), ecc as nat, fp.g(), fp.m()),
{
    let len = message.len();
    let data_len = len - ecc;
    let gp = gen_poly(ecc, fp);
    let ghost gs = nats(gp@);
    let ghost f0 = zero_tail(words(message@), data_len as nat);
    let mut h: Vec<u128> = Vec::new();
    let mut i: usize = 0;
    proof {
        lemma_exp2_pos(fp.w());
    }
    while i < len
        invariant
            fp.wf(),
            len == message@.len(),
            data_len == len - ecc,
            block_ok(message@, fp.w()),
            f0 == zero_tail(words(message@), data_len as nat),
            0 <= i <= len,
            h@.len() == i,
            reduced(h@, fp.w()),
            forall|t: int| 0 <= t < i ==> (#[trigger] h@[t]) as nat == f0[t],
        decreases len - i,
    {
        let v: u128 = if i < data_len { message[i].to_u128() } else { 0 };
        h.push(v);
        i = i + 1;
    }
    proof {
        assert(nats(h@) =~= synth_div(f0, gs, 0, fp.m()));
        assert(clear_front(nats(h@), 0) =~= f0);
    }
    let mut i: usize = 0;
    while i < data_len
        invariant
            fp.wf(),
            len == h@.len(),
            data_len == len - ecc,
            gp@.len() == ecc + 1,
            gs == nats(gp@),
            reduced(gp@, fp.w()),
            reduced(h@, fp.w()),
            0 <= i <= data_len,
            nats(h@) == synth_div(f0, gs, i as nat, fp.m()),
            gs == generator_poly(ecc as nat, fp.g(), fp.m()),
            forall|j: nat| j < ecc ==> #[trigger] syndrome(clear_front(nats(h@), i as nat), j, fp.g(), fp.m())
                == syndrome(f0, j, fp.g(), fp.m()),
        decreases data_len - i,
    {
        let ghost h0 = nats(h@);
        divide_step(&mut h, &gp, i, fp);
        i = i + 1;
        proof {
            lemma_encode_step(h0, nats(h@), f0, (i - 1) as nat, i as nat, ecc as nat, fp.g(), fp.m(), fp.w());
        }
    }
    let ghost m0 = message@;
    let mut i: usize = data_len;
    proof {
        lemma_exp2_mono(fp.w(), W::width_of());
    }
    while i < len
        invariant
            fp.wf(),
            exp2(fp.w()) <= exp2(W::width_of()),
            len == h@.len(),
            len == message@.len(),
            m0.len() == len,
            data_len == len - ecc,
            reduced(h@, fp.w()),
            block_ok(message@, fp.w()),
            nats(h@) == synth_div(f0, gs, data_len as nat, fp.m()),
            data_len <= i <= len,
            forall|t: int| 0 <= t < data_len ==> #[trigger] message@[t] == m0[t],
            forall|t: int| data_len <= t < i ==> (#[trigger] message@[t]).nat_of() == h@[t] as nat,
        decreases len - i,
    {
        message[i] = W::of_u128(h[i]);
        i = i + 1;
    }
    proof {
        let hs = nats(h@);
        let sum = seq_xor(f0, clear_front(hs, data_len as nat));
        assert forall|t: int| 0 <= t < len implies #[trigger] words(message@)[t] == sum[t] by {
            lemma_pxor_zero(f0[t]);
            lemma_pxor_zero(hs[t]);
        }
        assert(words(message@) =~= sum);
        assert forall|j: nat| j < ecc implies #[trigger] syndrome(words(message@), j, fp.g(), fp.m()) == 0 by {
            lemma_syndrome_sum(f0, clear_front(hs, data_len as nat), j, fp.g(), fp.m());
        }
    }
}

/// `x^(2^w - 2)`, the inverse of a non-zero `x`.
fn recip(x: u128, fp: &FieldParams) -> (r: u128)
    requires
        fp.wf(),
        (x as nat) < exp2(fp.w()),
    ensures
        r as nat == fdiv(1, x as nat, fp.m(), fp.w()),
        (r as nat) < exp2(fp.w()),
{
    proof {
        lemma_exp2_mono(1, fp.w());
        assert(exp2(1) == 2 * exp2(0));
    }
    fdivide(1, x, fp)
}

/// The point `g^(len - 1 - j)` that position `j` of a codeword of `len`
/// words stands for.
fn position_point(len: usize, j: usize, fp: &FieldParams) -> (r: u128)
    requires
        fp.wf(),
        j < len,
    ensures
        r as nat == point(len as nat, j as int, fp.g(), fp.m()),
        (r as nat) < exp2(fp.w()),
{
    gpow(len - 1 - j, fp)
}

/// `x` multiplied by `c` in place, word by word.
fn scale(f: &mut Vec<u128>, c: u128, fp: &FieldParams)
    requires
        fp.wf(),
        (c as nat) < exp2(fp.w()),
        reduced(old(f)@, fp.w()),
    ensures
        final(f)@.len() == old(f)@.len(),
        reduced(final(f)@, fp.w()),
        forall|k: int| 0 <= k < old(f)@.len() ==> (#[trigger] final(f)@[k]) as nat == mulmod(old(f)@[k] as nat, c as nat, fp.m()),
{
    let mut i: usize = 0;
    while i < f.len()
        invariant
            fp.wf(),
            (c as nat) < exp2(fp.w()),
            reduced(f@, fp.w()),
            f@.len() == old(f)@.len(),
            0 <= i <= f@.len(),
            forall|k: int| 0 <= k < i ==> (#[trigger] f@[k]) as nat == mulmod(old(f)@[k] as nat, c as nat, fp.m()),
            forall|k: int| i <= k < f@.len() ==> #[trigger] f@[k] == old(f)@[k],
        decreases f@.len() - i,
    {
        let y = fmul(f[i], c, fp);
        f.set(i, y);
        i = i + 1;
    }
}

/// The entries moved one place towards the front, the first one to the
/// back: the coefficients times `x`, the top one wrapping around.
fn rotate_left(f: &mut Vec<u128>)
    requires
        old(f)@.len() >= 1,
    ensures
        final(f)@ == old(f)@.subrange(1, old(f)@.len() as int).push(old(f)@[0]),
{
    let n = f.len();
    let first = f[0];
    let mut k: usize = 0;
    while k + 1 < n
        invariant
            f@.len() == n,
            n >= 1,
            first == old(f)@[0],
            0 <= k < n,
            forall|t: int| 0 <= t < k ==> #[trigger] f@[t] == old(f)@[t + 1],
            forall|t: int| k <= t < n ==> #[trigger] f@[t] == old(f)@[t],
        decreases n - k,
    {
        let y = f[k + 1];
        f.set(k, y);
        k = k + 1;
    }
    f.set(n - 1, first);
    proof {
        assert(f@ =~= old(f)@.subrange(1, n as int).push(old(f)@[0]));
    }
}

/// `lam` plus `c` times `p`, in place, word by word.
fn add_scaled(lam: &mut Vec<u128>, p: &Vec<u128>, c: u128, fp: &FieldParams)
    requires
        fp.wf(),
        (c as nat) < exp2(fp.w()),
        reduced(old(lam)@, fp.w()),
        reduced(p@, fp.w()),
        p@.len() == old(lam)@.len(),
    ensures
        final(lam)@.len() == old(lam)@.len(),
        reduced(final(lam)@, fp.w()),
        forall|k: int| 0 <= k < old(lam)@.len() ==> (#[trigger] final(lam)@[k]) as nat
            == pxor(old(lam)@[k] as nat, mulmod(p@[k] as nat, c as nat, fp.m())),
{
    let n = lam.len();
    let mut k: usize = 0;
    while k < n
        invariant
            fp.wf(),
            (c as nat) < exp2(fp.w()),
            reduced(lam@, fp.w()),
            reduced(p@, fp.w()),
            p@.len() == n,
            lam@.len() == n,
            n == old(lam)@.len(),
            0 <= k <= n,
            forall|t: int| 0 <= t < k ==> (#[trigger] lam@[t]) as nat
                == pxor(old(lam)@[t] as nat, mulmod(p@[t] as nat, c as nat, fp.m())),
            forall|t: int| k <= t < n ==> #[trigger] lam@[t] == old(lam)@[t],
        decreases n - k,
    {
        let y = fmul(p[k], c, fp);
        let z = fadd(lam[k], y, fp);
        lam.set(k, z);
        k = k + 1;
    }
}

/// The discrepancy of step `i`: `s_i + sum_(1 <= j <= v) L_j s_(i-j)`,
/// with `lam` highest coefficient first.
pub open spec fn disc(lam: Seq<nat>, s: Seq<nat>, i: int, j: int, m: nat) -> nat
    decreases j,
{
    if j <= 0 {
        s[i]
    } else {
        pxor(disc(lam, s, i, j - 1, m), mulmod(lam[lam.len() - 1 - j], s[i - j], m))
    }
}

/// The discrepancy `disc` of step `i`, summed over `v` coefficients.
fn discrepancy(lam: &Vec<u128>, s: &Vec<u128>, i: usize, v: usize, fp: &FieldParams) -> (d: u128)
    requires
        fp.wf(),
        reduced(lam@, fp.w()),
        reduced(s@, fp.w()),
        i < s@.len(),
        v <= i,
        lam@.len() == s@.len() + 1,
    ensures
        d as nat == disc(nats(lam@), nats(s@), i as int, v as int, fp.m()),
        (d as nat) < exp2(fp.w()),
{
    let n = lam.len();
    let mut delta = s[i];
    let mut j: usize = 1;
    while j <= v
        invariant
            fp.wf(),
            reduced(lam@, fp.w()),
            reduced(s@, fp.w()),
            n == lam@.len(),
            n == s@.len() + 1,
            i < s@.len(),
            v <= i,
            1 <= j <= v + 1,
            delta as nat == disc(nats(lam@), nats(s@), i as int, j - 1, fp.m()),
            (delta as nat) < exp2(fp.w()),
        decreases v + 1 - j,
    {
        let t = fmul(lam[n - 1 - j], s[i - j], fp);
        delta = fadd(delta, t, fp);
        j = j + 1;
    }
    delta
}

/// `f` times `x + r` (highest coefficient first), or `f` times `1 + r x`
/// (lowest coefficient first).
fn times_linear(f: &Vec<u128>, r: u128, fp: &FieldParams) -> (out: Vec<u128>)
    requires
        fp.wf(),
        reduced(f@, fp.w()),
        (r as nat) < exp2(fp.w()),
        f@.len() < usize::MAX - 1,
    ensures
        nats(out@) == mul_linear(nats(f@), r as nat, fp.m()),
        out@.len() == f@.len() + 1,
        reduced(out@, fp.w()),
{
    proof {
        lemma_exp2_pos(fp.w());
    }
    let n = f.len();
    let mut out: Vec<u128> = Vec::new();
    let mut i: usize = 0;
    while i <= n
        invariant
            fp.wf(),
            n == f@.len(),
            n < usize::MAX - 1,
            reduced(f@, fp.w()),
            (r as nat) < exp2(fp.w()),
            0 < exp2(fp.w()),
            0 <= i <= n + 1,
            out@.len() == i,
            reduced(out@, fp.w()),
            forall|t: int| 0 <= t < i ==> (#[trigger] out@[t]) as nat == mul_linear(nats(f@), r as nat, fp.m())[t],
        decreases n + 1 - i,
    {
        let a: u128 = if i < n { f[i] } else { 0 };
        let b: u128 = if i >= 1 { fmul(r, f[i - 1], fp) } else { 0 };
        let c = fadd(a, b, fp);
        out.push(c);
        i = i + 1;
    }
    proof {
        assert(nats(out@) =~= mul_linear(nats(f@), r as nat, fp.m()));
    }
    out
}

/// The erasure locator, the product of `1 + X_j x` over the listed
/// positions `j`, with `X_j` the point of position `j`; lowest
/// coefficient first.
fn erasure_locator(len: usize, erasures: &[usize], fp: &FieldParams) -> (r: Vec<u128>)
    requires
        fp.wf(),
        forall|t: int| 0 <= t < erasures@.len() ==> #[trigger] erasures@[t] < len,
        erasures@.len() < usize::MAX - 2,
    ensures
        r@.len() == erasures@.len() + 1,
        reduced(r@, fp.w()),
        nats(r@) == locator(erasure_points(len as nat, erasures@, fp.g(), fp.m()), fp.m()),
{
    proof {
        lemma_exp2_mono(1, fp.w());
        assert(exp2(1) == 2 * exp2(0));
        assert(nats(seq![1u128]) =~= seq![1nat]);
    }
    let ghost pts = erasure_points(len as nat, erasures@, fp.g(), fp.m());
    let mut lam: Vec<u128> = Vec::new();
    lam.push(1);
    let mut t: usize = 0;
    while t < erasures.len()
        invariant
            fp.wf(),
            exp2(1) <= exp2(fp.w()),
            forall|t2: int| 0 <= t2 < erasures@.len() ==> #[trigger] erasures@[t2] < len,
            erasures@.len() < usize::MAX - 2,
            pts == erasure_points(len as nat, erasures@, fp.g(), fp.m()),
            0 <= t <= erasures@.len(),
            lam@.len() == t + 1,
            reduced(lam@, fp.w()),
            nats(lam@) == locator(pts.subrange(0, t as int), fp.m()),
        decreases erasures@.len() - t,
    {
        let x = position_point(len, erasures[t], fp);
        proof {
            assert(pts.subrange(0, t + 1).drop_last() =~= pts.subrange(0, t as int));
        }
        lam = times_linear(&lam, x, fp);
        t = t + 1;
    }
    proof {
        assert(pts.subrange(0, erasures@.len() as int) =~= pts);
    }
    lam
}

/// The entries of `v` in the opposite order: a polynomial's coefficients
/// highest first become lowest first.
fn reversed(v: &Vec<u128>) -> (r: Vec<u128>)
    ensures
        r@ == v@.reverse(),
{
    let n = v.len();
    let mut r: Vec<u128> = Vec::new();
    let mut i: usize = 0;
    while i < n
        invariant
            n == v@.len(),
            0 <= i <= n,
            r@.len() == i,
            forall|t: int| 0 <= t < i ==> #[trigger] r@[t] == v@[n - 1 - t],
        decreases n - i,
    {
        r.push(v[n - 1 - i]);
        i = i + 1;
    }
    proof {
        assert(r@ =~= v@.reverse());
    }
    r
}

/// The syndromes `s` are those of the word `e`, whose non-zero entries
/// all stand at the listed positions, at most half as many as there are
/// syndromes, over a field with what the decoder's proofs need.
pub open spec fn many_errors(s: Seq<nat>, e: Seq<nat>, errs: Seq<usize>, g: nat, m: nat, w: nat) -> bool {
    &&& rs_field_facts(g, m, w, e.len())
    &&& e.len() <= usize::MAX
    &&& crate::shamir::algebra::fits(e, w)
    &&& forall|t: int| 0 <= t < s.len() ==> #[trigger] s[t] == syndrome(e, t as nat, g, m)
    &&& forall|j: int| 0 <= j < e.len() && e[j] != 0 ==> errs.contains(j as usize)
    &&& 2 * errs.len() <= s.len()
}

/// The error locator found from the syndromes by the Berlekamp-Massey
/// algorithm: first with leading zeros removed, then its coefficients
/// from its length `v` down to the constant one. For zero syndromes it is
/// `1`. When the syndromes are those of a word with few enough non-zero
/// entries, `v` is at most their number and the second polynomial, read
/// lowest coefficient first, vanishes at each of their points.
#[verifier::rlimit(60)]
fn error_locator(
    s: &Vec<u128>,
    fp: &FieldParams,
    Ghost(e): Ghost<Seq<nat>>,
    Ghost(errs): Ghost<Seq<usize>>,
) -> (r: (Vec<u128>, Vec<u128>))
    requires
        fp.wf(),
        reduced(s@, fp.w()),
        s@.len() < usize::MAX - 2,
    ensures
        r.0@.len() <= s@.len() + 1,
        reduced(r.0@, fp.w()),
        (forall|i: int| 0 <= i < s@.len() ==> s@[i] == 0) ==> r.0@ == seq![1u128],
        1 <= r.1@.len() <= s@.len() + 1,
        reduced(r.1@, fp.w()),
        crate::raid::algebra::field_inverts(fp.m(), fp.w()) ==> 1 <= r.0@.len() <= r.1@.len(),
        crate::raid::algebra::field_inverts(fp.m(), fp.w()) ==> r.1@[r.1@.len() - 1] == 1,
        many_errors(nats(s@), e, errs, fp.g(), fp.m(), fp.w())
            ==> r.1@.len() - 1 <= errs.len()
                && forall|j: int| 0 <= j < e.len() && e[j] != 0
                    ==> #[trigger] crate::shamir::peval(nats(r.1@), point(e.len(), j, fp.g(), fp.m()), fp.m()) == 0,
{
    let ghost zero = forall|i: int| 0 <= i < s@.len() ==> s@[i] == 0;
    let ghost fi = crate::raid::algebra::field_inverts(fp.m(), fp.w());
    let ghost many = many_errors(nats(s@), e, errs, fp.g(), fp.m(), fp.w());
    let ghost mut u: int = 0;
    proof {
        lemma_exp2_mono(1, fp.w());
        assert(exp2(1) == 2 * exp2(0));
        lemma_exp2_pos(fp.w());
    }
    let n = s.len() + 1;
    let mut lam: Vec<u128> = Vec::new();
    let mut i: usize = 0;
    while i < n
        invariant
            0 <= i <= n,
            lam@.len() == i,
            forall|t: int| 0 <= t < i ==> #[trigger] lam@[t] == (if t == n - 1 { 1u128 } else { 0u128 }),
        decreases n - i,
    {
        lam.push(if i == n - 1 { 1 } else { 0 });
        i = i + 1;
    }
    assert(reduced(lam@, fp.w()));
    let ghost init = lam@;
    assert(forall|t: int| 0 <= t < n ==> #[trigger] init[t] == (if t == n - 1 { 1u128 } else { 0u128 }));
    let mut prev = lam.clone();
    let mut v: usize = 0;
    let mut i: usize = 0;
    proof {
        let l = nats(lam@);
        assert(lc(l, 0) == 1);
        assert forall|t: int| 0 < t implies #[trigger] lc(l, t) == 0 by {
            if t < n {
                assert(l[n - 1 - t] == init[n - 1 - t] as nat);
            }
        }
    }
    while i < s.len()
        invariant
            fp.wf(),
            exp2(1) <= exp2(fp.w()),
            n == s@.len() + 1,
            reduced(s@, fp.w()),
            lam@.len() == n,
            prev@.len() == n,
            reduced(lam@, fp.w()),
            reduced(prev@, fp.w()),
            0 <= i <= s@.len(),
            v <= i,
            zero == forall|k: int| 0 <= k < s@.len() ==> s@[k] == 0,
            zero ==> v == 0 && lam@ == init,
            fi == crate::raid::algebra::field_inverts(fp.m(), fp.w()),
            many == many_errors(nats(s@), e, errs, fp.g(), fp.m(), fp.w()),
            fi ==> crate::rs::bm::bm_state(nats(lam@), nats(prev@), nats(s@), i as int, v as int, u, fp.m()),
            many ==> v <= errs.len(),
        decreases s@.len() - i,
    {
        let ghost lam0 = nats(lam@);
        let ghost prev0 = nats(prev@);
        proof {
            assert forall|t: int| 0 <= t < lam0.len() implies #[trigger] lam0[t] < exp2(fp.w()) by {
                assert(lam0[t] == lam@[t] as nat);
            }
            assert forall|t: int| 0 <= t < nats(s@).len() implies #[trigger] nats(s@)[t] < exp2(fp.w()) by {
                assert(nats(s@)[t] == s@[t] as nat);
            }
        }
        let delta = discrepancy(&lam, s, i, v, fp);
        proof {
            if zero {
                assert(disc(nats(lam@), nats(s@), i as int, 0, fp.m()) == 0);
            }
        }
        rotate_left(&mut prev);
        let ghost prev_r = nats(prev@);
        let ghost v0 = v;
        if delta != 0 {
            if v <= i - v {
                core::mem::swap(&mut lam, &mut prev);
                scale(&mut lam, delta, fp);
                let inv = recip(delta, fp);
                scale(&mut prev, inv, fp);
                v = i + 1 - v;
            }
            add_scaled(&mut lam, &prev, delta, fp);
            proof {
                if v0 <= i - v0 {
                    assert(nats(prev@) =~= Seq::new(n as nat, |k: int| mulmod(lam0[k], fdiv(1, delta as nat, fp.m(), fp.w()), fp.m())));
                    assert(nats(lam@) =~= Seq::new(n as nat, |k: int| pxor(mulmod(prev_r[k], delta as nat, fp.m()), mulmod(nats(prev@)[k], delta as nat, fp.m()))));
                } else {
                    assert(nats(lam@) =~= Seq::new(n as nat, |k: int| pxor(lam0[k], mulmod(prev_r[k], delta as nat, fp.m()))));
                    assert(nats(prev@) =~= prev_r);
                }
            }
        }
        proof {
            if fi {
                assert(prev_r =~= prev0.subrange(1, n as int).push(prev0[0]));
                crate::rs::bm::lemma_bm_step(lam0, prev0, prev_r, nats(lam@), nats(prev@), delta as nat, nats(s@),
                    i as int, v0 as int, u, fp.m(), fp.w());
                if many && delta != 0 && v0 <= i - v0 {
                    if errs.len() + v0 <= i {
                        crate::rs::bm::lemma_generator_roots(lam0, v0 as int, i as int, nats(s@), e, errs,
                            fp.g(), fp.m(), fp.w());
                        assert(false);
                    }
                }
                u = if delta != 0 && v0 <= i - v0 { v0 as int } else { u + 1 };
            }
        }
        i = i + 1;
    }
    proof {
        if many {
            assert forall|k: int| 0 <= k < nats(lam@).len() implies #[trigger] nats(lam@)[k] < exp2(fp.w()) by {
                assert(nats(lam@)[k] == lam@[k] as nat);
            }
            crate::rs::bm::lemma_generator_roots(nats(lam@), v as int, s@.len() as int, nats(s@), e, errs,
                fp.g(), fp.m(), fp.w());
        }
    }
    // trim leading zeros
    let mut z: usize = 0;
    while z < n && lam[z] == 0
        invariant
            lam@.len() == n,
            n >= 1,
            0 <= z <= n,
            zero ==> lam@ == init && z <= n - 1,
            forall|t: int| 0 <= t < n ==> #[trigger] init[t] == (if t == n - 1 { 1u128 } else { 0u128 }),
            v < n,
            fi ==> forall|t: int| #![trigger lam@[t]] 0 <= t < z ==> lam@[t] == 0,
        decreases n - z,
    {
        z = z + 1;
    }
    proof {
        if fi {
            assert(lc(nats(lam@), 0) == 1);
            assert(nats(lam@)[n - 1] == lam@[n - 1] as nat);
            if z < n - 1 - v {
                assert(lc(nats(lam@), n - 1 - z) == 0);
                assert(nats(lam@)[z as int] == lam@[z as int] as nat);
            }
        }
    }
    let mut r: Vec<u128> = Vec::new();
    let mut k: usize = z;
    while k < n
        invariant
            lam@.len() == n,
            reduced(lam@, fp.w()),
            z <= k <= n,
            r@.len() == k - z,
            reduced(r@, fp.w()),
            forall|t: int| 0 <= t < r@.len() ==> #[trigger] r@[t] == lam@[z + t],
            zero ==> lam@ == init && z == n - 1,
            forall|t: int| 0 <= t < n ==> #[trigger] init[t] == (if t == n - 1 { 1u128 } else { 0u128 }),
        decreases n - k,
    {
        r.push(lam[k]);
        k = k + 1;
    }
    proof {
        if zero {
            assert(r@ =~= seq![1u128]);
        }
    }
    let mut tp: Vec<u128> = Vec::new();
    let mut k2: usize = n - 1 - v;
    while k2 < n
        invariant
            lam@.len() == n,
            reduced(lam@, fp.w()),
            v < n,
            n - 1 - v <= k2 <= n,
            tp@.len() == k2 - (n - 1 - v),
            forall|t: int| 0 <= t < tp@.len() ==> #[trigger] tp@[t] == lam@[(n - 1 - v) + t],
        decreases n - k2,
    {
        tp.push(lam[k2]);
        k2 = k2 + 1;
    }
    proof {
        let tpart = crate::rs::bm::top_part(nats(lam@), v as int);
        assert(nats(tp@) =~= tpart);
        assert(reduced(tp@, fp.w())) by {
            assert forall|t: int| 0 <= t < tp@.len() implies (#[trigger] tp@[t] as nat) < exp2(fp.w()) by {
                assert(tp@[t] == lam@[(n - 1 - v) + t]);
            }
        }
        if fi {
            assert(lc(nats(lam@), 0) == 1);
            assert(tp@[v as int] == lam@[n - 1]);
        }
    }
    (r, tp)
}


/// The positions `j` of a codeword of `len` words whose point `X_j` is a
/// root of `tp`, read lowest coefficient first, in increasing order. With
/// `tp` the locator's coefficients from the top down, these are the roots
/// of the locator at `X_j^-1`.
fn error_points(len: usize, tp: &Vec<u128>, fp: &FieldParams) -> (r: Vec<usize>)
    requires
        fp.wf(),
        reduced(tp@, fp.w()),
    ensures
        r@.len() <= len,
        forall|t: int| 0 <= t < r@.len() ==> #[trigger] r@[t] < len,
        forall|a: int, b: int| 0 <= a < b < r@.len() ==> r@[a] < r@[b],
        forall|t: int| 0 <= t < r@.len()
            ==> crate::shamir::peval(nats(tp@), point(len as nat, #[trigger] r@[t] as int, fp.g(), fp.m()), fp.m()) == 0,
        forall|j: usize| j < len
            && crate::shamir::peval(nats(tp@), point(len as nat, j as int, fp.g(), fp.m()), fp.m()) == 0
            ==> #[trigger] r@.contains(j),
{
    proof {
        assert(tp@.map_values(|v: u128| v as nat) =~= nats(tp@));
    }
    let mut r: Vec<usize> = Vec::new();
    let mut j: usize = 0;
    while j < len
        invariant
            fp.wf(),
            reduced(tp@, fp.w()),
            tp@.map_values(|v: u128| v as nat) == nats(tp@),
            0 <= j <= len,
            r@.len() <= j,
            forall|t: int| 0 <= t < r@.len() ==> #[trigger] r@[t] < j,
            forall|a: int, b: int| 0 <= a < b < r@.len() ==> r@[a] < r@[b],
            forall|t: int| 0 <= t < r@.len()
                ==> crate::shamir::peval(nats(tp@), point(len as nat, #[trigger] r@[t] as int, fp.g(), fp.m()), fp.m()) == 0,
            forall|j2: usize| j2 < j
                && crate::shamir::peval(nats(tp@), point(len as nat, j2 as int, fp.g(), fp.m()), fp.m()) == 0
                ==> #[trigger] r@.contains(j2),
        decreases len - j,
    {
        let x = position_point(len, j, fp);
        let z = crate::shamir::eval_poly(tp, x, fp);
        let ghost r0 = r@;
        if z == 0 {
            r.push(j);
            proof {
                assert(r@[r0.len() as int] == j);
                assert forall|j2: usize| r0.contains(j2) implies #[trigger] r@.contains(j2) by {
                    let k = choose|k: int| 0 <= k < r0.len() && r0[k] == j2;
                    assert(r@[k] == j2);
                }
            }
        }
        j = j + 1;
    }
    r
}

/// The syndromes with the known erasures taken out (Forney syndromes):
/// for each erasure point `X`, `S[i] = S[i+1] + S[i] X`, and the last
/// `erasures.len()` entries dropped.
fn forney_syndromes(len: usize, s: &Vec<u128>, erasures: &[usize], fp: &FieldParams) -> (r: Vec<u128>)
    requires
        fp.wf(),
        reduced(s@, fp.w()),
        s@.len() >= 1,
        erasures@.len() <= s@.len(),
        forall|t: int| 0 <= t < erasures@.len() ==> #[trigger] erasures@[t] < len,
    ensures
        r@.len() == s@.len() - erasures@.len(),
        reduced(r@, fp.w()),
        forall|i: int| 0 <= i < r@.len() ==> (#[trigger] r@[i]) as nat
            == forney_all(nats(s@), erasure_points(len as nat, erasures@, fp.g(), fp.m()), erasures@.len(), fp.m())[i],
{
    let ghost pts = erasure_points(len as nat, erasures@, fp.g(), fp.m());
    let mut f = s.clone();
    let n = f.len();
    proof {
        assert(nats(f@) =~= forney_all(nats(s@), pts, 0, fp.m()));
    }
    let mut t: usize = 0;
    while t < erasures.len()
        invariant
            fp.wf(),
            f@.len() == n,
            n == s@.len(),
            n >= 1,
            reduced(f@, fp.w()),
            forall|t2: int| 0 <= t2 < erasures@.len() ==> #[trigger] erasures@[t2] < len,
            pts == erasure_points(len as nat, erasures@, fp.g(), fp.m()),
            0 <= t <= erasures@.len(),
            nats(f@) == forney_all(nats(s@), pts, t as nat, fp.m()),
        decreases erasures@.len() - t,
    {
        let x = position_point(len, erasures[t], fp);
        let ghost f0 = nats(f@);
        let mut i: usize = 0;
        while i < n - 1
            invariant
                fp.wf(),
                f@.len() == n,
                n >= 1,
                f0.len() == n,
                reduced(f@, fp.w()),
                (x as nat) < exp2(fp.w()),
                0 <= i <= n - 1,
                forall|k: int| 0 <= k < i ==> (#[trigger] f@[k]) as nat == pxor(f0[k + 1], mulmod(f0[k], x as nat, fp.m())),
                forall|k: int| i <= k < n ==> (#[trigger] f@[k]) as nat == f0[k],
            decreases n - 1 - i,
        {
            let y = fmul(f[i], x, fp);
            let z = fadd(f[i + 1], y, fp);
            f.set(i, z);
            i = i + 1;
        }
        proof {
            assert(pts[t as int] == x as nat);
            assert(nats(f@) =~= forney_step(f0, x as nat, fp.m()));
        }
        t = t + 1;
    }
    let ghost full = f@;
    f.truncate(n - erasures.len());
    proof {
        assert forall|i: int| 0 <= i < f@.len() implies (#[trigger] f@[i]) as nat
            == forney_all(nats(s@), pts, erasures@.len(), fp.m())[i] by {
            assert(f@[i] == full[i]);
        }
    }
    f
}

/// `z^e` in the field.
fn field_pow(z: u128, e: usize, fp: &FieldParams) -> (r: u128)
    requires
        fp.wf(),
        (z as nat) < exp2(fp.w()),
    ensures
        r as nat == powmod(z as nat, e as nat, fp.m()),
        (r as nat) < exp2(fp.w()),
{
    powmod_u128(z, e as u128, fp.poly, fp.width)
}

/// `sum_(i < count) z^i s_i`.
fn weighted_syndromes(s: &Vec<u128>, z: u128, count: usize, fp: &FieldParams) -> (r: u128)
    requires
        fp.wf(),
        reduced(s@, fp.w()),
        (z as nat) < exp2(fp.w()),
        count <= s@.len(),
    ensures
        r as nat == ssum(geo(z as nat, count as nat, fp.m()), 0, nats(s@), fp.m()),
        (r as nat) < exp2(fp.w()),
{
    proof {
        lemma_exp2_pos(fp.w());
    }
    let ghost b = geo(z as nat, count as nat, fp.m());
    let mut acc: u128 = 0;
    let mut i: usize = count;
    proof {
        assert(b.subrange(count as int, count as int) =~= Seq::<nat>::empty());
    }
    while i > 0
        invariant
            fp.wf(),
            reduced(s@, fp.w()),
            (z as nat) < exp2(fp.w()),
            0 < exp2(fp.w()),
            count <= s@.len(),
            b == geo(z as nat, count as nat, fp.m()),
            0 <= i <= count,
            acc as nat == ssum(b.subrange(i as int, count as int), i as nat, nats(s@), fp.m()),
            (acc as nat) < exp2(fp.w()),
        decreases i,
    {
        i = i - 1;
        let zi = field_pow(z, i, fp);
        let t = fmul(zi, s[i], fp);
        proof {
            let sub = b.subrange(i as int, count as int);
            assert(sub.subrange(1, sub.len() as int) =~= b.subrange(i + 1, count as int));
        }
        acc = fadd(t, acc, fp);
    }
    proof {
        assert(b.subrange(0, count as int) =~= b);
    }
    acc
}

/// The evaluator `O(z)`: `sum_(i <= nn) L_i z^i T_(nn-i)(z)` with
/// `T_M(z) = sum_(k < M) s_k z^k`, the value at `z` of `S(x) L(x)` with
/// its powers from `x^nn` on dropped; `lam` lowest coefficient first.
fn evaluator_at(lam: &Vec<u128>, s: &Vec<u128>, z: u128, fp: &FieldParams) -> (r: u128)
    requires
        fp.wf(),
        reduced(lam@, fp.w()),
        reduced(s@, fp.w()),
        (z as nat) < exp2(fp.w()),
    ensures
        r as nat == osum(nats(lam@), nats(s@), z as nat, s@.len() as nat, 0, fp.m()),
        (r as nat) < exp2(fp.w()),
{
    proof {
        lemma_exp2_pos(fp.w());
    }
    let nn = s.len();
    let mut acc: u128 = 0;
    let mut j: usize = lam.len();
    while j > 0
        invariant
            fp.wf(),
            reduced(lam@, fp.w()),
            reduced(s@, fp.w()),
            (z as nat) < exp2(fp.w()),
            0 < exp2(fp.w()),
            nn == s@.len(),
            0 <= j <= lam@.len(),
            acc as nat == osum(nats(lam@), nats(s@), z as nat, nn as nat, j as int, fp.m()),
            (acc as nat) < exp2(fp.w()),
        decreases j,
    {
        j = j - 1;
        let term: u128 = if j <= nn {
            let zj = field_pow(z, j, fp);
            let c = fmul(lam[j], zj, fp);
            let tm = weighted_syndromes(s, z, nn - j, fp);
            fmul(c, tm, fp)
        } else {
            0
        };
        acc = fadd(term, acc, fp);
    }
    acc
}

/// The formal derivative `L'(z)`: `sum_(i odd) L_i z^(i-1)`; `lam` lowest
/// coefficient first.
fn derivative_at(lam: &Vec<u128>, z: u128, fp: &FieldParams) -> (r: u128)
    requires
        fp.wf(),
        reduced(lam@, fp.w()),
        (z as nat) < exp2(fp.w()),
    ensures
        r as nat == dsum(nats(lam@), z as nat, 0, fp.m()),
        (r as nat) < exp2(fp.w()),
{
    proof {
        lemma_exp2_pos(fp.w());
    }
    let mut acc: u128 = 0;
    let mut j: usize = lam.len();
    while j > 0
        invariant
            fp.wf(),
            reduced(lam@, fp.w()),
            (z as nat) < exp2(fp.w()),
            0 < exp2(fp.w()),
            0 <= j <= lam@.len(),
            acc as nat == dsum(nats(lam@), z as nat, j as int, fp.m()),
            (acc as nat) < exp2(fp.w()),
        decreases j,
    {
        j = j - 1;
        let term: u128 = if j % 2 == 1 {
            let zp = field_pow(z, j - 1, fp);
            fmul(lam[j], zp, fp)
        } else {
            0
        };
        acc = fadd(term, acc, fp);
    }
    acc
}

/// The error magnitudes at the given positions by Forney's algorithm:
/// `Y_j = X_j * O(X_j^-1) / L'(X_j^-1)`, where `O` is the evaluator of the
/// syndromes `s` and the locator `lam` (lowest coefficient first) and `L'`
/// the formal derivative of `lam`; a zero denominator gives zero.
fn error_magnitudes(len: usize, s: &Vec<u128>, lam: &Vec<u128>, locs: &[usize], fp: &FieldParams) -> (r: Vec<u128>)
    requires
        fp.wf(),
        reduced(s@, fp.w()),
        reduced(lam@, fp.w()),
        forall|t: int| 0 <= t < locs@.len() ==> #[trigger] locs@[t] < len,
    ensures
        r@.len() == locs@.len(),
        reduced(r@, fp.w()),
        forall|t: int| 0 <= t < locs@.len() ==> (#[trigger] r@[t]) as nat
            == magnitude(nats(lam@), nats(s@), point(len as nat, locs@[t] as int, fp.g(), fp.m()), s@.len() as nat, fp.m(), fp.w()),
{
    proof {
        lemma_exp2_pos(fp.w());
    }
    let mut r: Vec<u128> = Vec::new();
    let mut t: usize = 0;
    while t < locs.len()
        invariant
            fp.wf(),
            0 < exp2(fp.w()),
            reduced(s@, fp.w()),
            reduced(lam@, fp.w()),
            forall|t2: int| 0 <= t2 < locs@.len() ==> #[trigger] locs@[t2] < len,
            0 <= t <= locs@.len(),
            r@.len() == t,
            reduced(r@, fp.w()),
            forall|t2: int| 0 <= t2 < t ==> (#[trigger] r@[t2]) as nat
                == magnitude(nats(lam@), nats(s@), point(len as nat, locs@[t2] as int, fp.g(), fp.m()), s@.len() as nat, fp.m(), fp.w()),
        decreases locs@.len() - t,
    {
        let x = position_point(len, locs[t], fp);
        let z = recip(x, fp);
        let om = evaluator_at(lam, s, z, fp);
        let d = derivative_at(lam, z, fp);
        let num = fmul(x, om, fp);
        let y: u128 = if d == 0 { 0 } else { fdivide(num, d, fp) };
        r.push(y);
        t = t + 1;
    }
    r
}

/// `b` equals `a` at every position that `locs` does not list.
pub open spec fn changed_only_at<W>(a: Seq<W>, b: Seq<W>, locs: Seq<usize>) -> bool {
    &&& b.len() == a.len()
    &&& forall|i: int| 0 <= i < a.len() && !locs.contains(i as usize) ==> #[trigger] b[i] == a[i]
}

/// Add the magnitude `mags[t]` to the word at position `locs[t]`, for each `t`.
fn apply_corrections<W: Word>(codeword: &mut [W], locs: &[usize], mags: &Vec<u128>, fp: &FieldParams)
    requires
        fp.wf(),
        fp.w() <= W::width_of(),
        block_ok(old(codeword)@, fp.w()),
        reduced(mags@, fp.w()),
        mags@.len() == locs@.len(),
        forall|t: int| 0 <= t < locs@.len() ==> #[trigger] locs@[t] < old(codeword)@.len(),
    ensures
        block_ok(final(codeword)@, fp.w()),
        changed_only_at(old(codeword)@, final(codeword)@, locs@),
        (forall|a: int, b: int| 0 <= a < b < locs@.len() ==> locs@[a] != locs@[b]) ==> forall|t: int|
            0 <= t < locs@.len() ==> (#[trigger] final(codeword)@[locs@[t] as int]).nat_of()
                == pxor(old(codeword)@[locs@[t] as int].nat_of(), mags@[t] as nat),
{
    let ghost c0 = codeword@;
    let ghost distinct_locs = forall|a: int, b: int| 0 <= a < b < locs@.len() ==> locs@[a] != locs@[b];
    proof {
        lemma_exp2_mono(fp.w(), W::width_of());
    }
    let mut t: usize = 0;
    while t < locs.len()
        invariant
            fp.wf(),
            exp2(fp.w()) <= exp2(W::width_of()),
            block_ok(codeword@, fp.w()),
            reduced(mags@, fp.w()),
            mags@.len() == locs@.len(),
            codeword@.len() == c0.len(),
            forall|t2: int| 0 <= t2 < locs@.len() ==> #[trigger] locs@[t2] < c0.len(),
            0 <= t <= locs@.len(),
            forall|i: int| 0 <= i < c0.len() && !locs@.subrange(0, t as int).contains(i as usize)
                ==> #[trigger] codeword@[i] == c0[i],
            distinct_locs == forall|a: int, b: int| 0 <= a < b < locs@.len() ==> locs@[a] != locs@[b],
            distinct_locs ==> forall|t2: int| 0 <= t2 < t ==> (#[trigger] codeword@[locs@[t2] as int]).nat_of()
                == pxor(c0[locs@[t2] as int].nat_of(), mags@[t2] as nat),
        decreases locs@.len() - t,
    {
        let j = locs[t];
        let ghost before = codeword@;
        proof {
            if distinct_locs {
                assert(!locs@.subrange(0, t as int).contains(j)) by {
                    if locs@.subrange(0, t as int).contains(j) {
                        let k = choose|k: int| 0 <= k < t && locs@.subrange(0, t as int)[k] == j;
                        assert(locs@[k] == locs@[t as int]);
                    }
                }
                assert(before[j as int] == c0[j as int]);
            }
        }
        let y = fadd(codeword[j].to_u128(), mags[t], fp);
        codeword[j] = W::of_u128(y);
        proof {
            assert forall|i: int| 0 <= i < c0.len() && !locs@.subrange(0, t + 1).contains(i as usize)
                implies #[trigger] codeword@[i] == c0[i] by {
                if locs@.subrange(0, t as int).contains(i as usize) {
                    let k = choose|k: int| 0 <= k < t && locs@.subrange(0, t as int)[k] == i as usize;
                    assert(locs@.subrange(0, t + 1)[k] == i as usize);
                }
                if i == j as int {
                    assert(locs@.subrange(0, t + 1)[t as int] == i as usize);
                }
            }
            if distinct_locs {
                assert forall|t2: int| 0 <= t2 < t + 1 implies (#[trigger] codeword@[locs@[t2] as int]).nat_of()
                    == pxor(c0[locs@[t2] as int].nat_of(), mags@[t2] as nat) by {
                    if t2 < t {
                        assert(locs@[t2] != locs@[t as int]);
                    }
                }
            }
        }
        t = t + 1;
    }
    proof {
        assert(locs@.subrange(0, locs@.len() as int) =~= locs@);
    }
}

/// Adding Forney's magnitudes at the listed positions of a word that lies
/// within those positions of a codeword gives that codeword.
#[verifier::rlimit(40)]
proof fn lemma_erasure_decode(
    received: Seq<nat>,
    repaired: Seq<nat>,
    sent: Seq<nat>,
    locs: Seq<usize>,
    s: Seq<nat>,
    mags: Seq<nat>,
    ecc: nat,
    g: nat,
    m: nat,
    w: nat,
)
    requires
        rs_field_facts(g, m, w, received.len()),
        received.len() <= usize::MAX,
        sent.len() == received.len(),
        repaired.len() == received.len(),
        crate::shamir::algebra::fits(received, w),
        crate::shamir::algebra::fits(sent, w),
        forall|i: nat| i < ecc ==> #[trigger] syndrome(sent, i, g, m) == 0,
        forall|i: nat| i < ecc ==> #[trigger] s[i as int] == syndrome(received, i, g, m),
        forall|a: int, b: int| 0 <= a < b < locs.len() ==> locs[a] != locs[b],
        forall|t: int| 0 <= t < locs.len() ==> #[trigger] locs[t] < received.len(),
        locs.len() <= ecc,
        forall|j: int| 0 <= j < received.len() && !locs.contains(j as usize) ==> #[trigger] sent[j] == received[j],
        forall|j: int| 0 <= j < received.len() && !locs.contains(j as usize) ==> #[trigger] repaired[j] == received[j],
        mags.len() == locs.len(),
        forall|t: int| 0 <= t < locs.len() ==> #[trigger] mags[t] == magnitude(
            locator(erasure_points(received.len(), locs, g, m), m),
            s,
            point(received.len(), locs[t] as int, g, m),
            ecc,
            m,
            w,
        ),
        forall|t: int| 0 <= t < locs.len() ==> #[trigger] repaired[locs[t] as int] == pxor(received[locs[t] as int], mags[t]),
    ensures
        repaired == sent,
{
    crate::shamir::algebra::lemma_m_pos(m, w);
    let len = received.len();
    let e = seq_xor(received, sent);
    assert forall|u: int| 0 <= u < len implies #[trigger] e[u] < exp2(w) by {
        crate::poly::lemma_pxor_bound(received[u], sent[u], w);
    }
    assert forall|u: int| 0 <= u < len && e[u] != 0 implies locs.contains(u as usize) by {
        if !locs.contains(u as usize) {
            crate::poly::lemma_pxor_self(received[u]);
        }
    }
    assert forall|i: nat| i < ecc implies #[trigger] s[i as int] == syndrome(e, i, g, m) by {
        assert(syndrome(sent, i, g, m) == 0);
        assert(s[i as int] == syndrome(received, i, g, m));
        crate::rs::algebra::lemma_beval_xor(received, sent, powmod(g, i, m), m);
        lemma_pxor_zero(syndrome(received, i, g, m));
    }
    assert forall|j: int| 0 <= j < len implies repaired[j] == sent[j] by {
        if locs.contains(j as usize) {
            let t = choose|t: int| 0 <= t < locs.len() && locs[t] == j as usize;
            assert(locs[t] as int == j);
            crate::rs::forney::lemma_forney(e, locs, s, t, ecc, g, m, w);
            crate::poly::lemma_pxor_assoc(received[j], received[j], sent[j]);
            crate::poly::lemma_pxor_self(received[j]);
            lemma_pxor_zero(sent[j]);
        }
    }
    assert(repaired =~= sent);
}

/// Repair the words at the listed positions (erasures) so that `codeword`
/// becomes a codeword again. At most `ecc` erasures can be repaired.
/// Returns the number of repaired words, `0` when `codeword` was already
/// a codeword. When the damage lies only at distinct listed positions, no
/// more than `ecc` of them, the repair succeeds and gives back the
/// codeword that was sent.
#[verifier::rlimit(40)]
pub fn correct_erasures<W: Word>(codeword: &mut [W], erasures: &[usize], ecc: usize, fp: &FieldParams) -> (r: Result<usize, RsError>)
    requires
        fp.wf(),
        fp.w() <= W::width_of(),
        block_ok(old(codeword)@, fp.w()),
        ecc < usize::MAX / 4,
        forall|t: int| 0 <= t < erasures@.len() ==> #[trigger] erasures@[t] < old(codeword)@.len(),
    ensures
        block_ok(final(codeword)@, fp.w()),
        changed_only_at(old(codeword)@, final(codeword)@, erasures@),
        erasures@.len() > ecc ==> r == Err::<usize, RsError>(RsError::TooManyErrors) && final(codeword)@ == old(codeword)@,
        erasures@.len() <= ecc && is_codeword(words(old(codeword)@), ecc as nat, fp.g(), fp.m())
            ==> r == Ok::<usize, RsError>(0) && final(codeword)@ == old(codeword)@,
        r is Ok <==> erasures@.len() <= ecc && is_codeword(words(final(codeword)@), ecc as nat, fp.g(), fp.m()),
        r matches Ok(n) ==> n == erasures@.len() || (n == 0 && final(codeword)@ == old(codeword)@),
        rs_field_facts(fp.g(), fp.m(), fp.w(), old(codeword)@.len())
            && erasures@.len() <= ecc
            && (forall|a: int, b: int| 0 <= a < b < erasures@.len() ==> erasures@[a] != erasures@[b])
            ==> forall|sent: Seq<W>| #[trigger] changed_only_at(sent, old(codeword)@, erasures@)
                && block_ok(sent, fp.w())
                && is_codeword(words(sent), ecc as nat, fp.g(), fp.m())
                ==> r is Ok && words(final(codeword)@) == words(sent),
{
    if erasures.len() > ecc {
        return Err(RsError::TooManyErrors);
    }
    let len = codeword.len();
    let v = to_u128s(codeword, Ghost(fp.w()));
    let s = syndromes(&v, ecc, fp);
    if all_zero(&s) {
        proof {
            assert forall|i: nat| i < ecc implies #[trigger] syndrome(words(codeword@), i, fp.g(), fp.m()) == 0 by {
                assert(s@[i as int] == 0);
            }
            if rs_field_facts(fp.g(), fp.m(), fp.w(), len as nat) {
                assert forall|sent: Seq<W>| #[trigger] changed_only_at(sent, codeword@, erasures@)
                    && block_ok(sent, fp.w())
                    && is_codeword(words(sent), ecc as nat, fp.g(), fp.m())
                    implies words(codeword@) == words(sent) by {
                    lemma_repair_restores(sent, codeword@, erasures@, ecc as nat, fp.g(), fp.m(), fp.w());
                }
            }
        }
        return Ok(0);
    }
    let lam = erasure_locator(len, erasures, fp);
    let mags = error_magnitudes(len, &s, &lam, erasures, fp);
    let ghost received = codeword@;
    apply_corrections(codeword, erasures, &mags, fp);
    proof {
        if rs_field_facts(fp.g(), fp.m(), fp.w(), len as nat) && erasures@.len() <= ecc
            && (forall|a: int, b: int| 0 <= a < b < erasures@.len() ==> erasures@[a] != erasures@[b]) {
            assert forall|sent: Seq<W>| #[trigger] changed_only_at(sent, received, erasures@)
                && block_ok(sent, fp.w())
                && is_codeword(words(sent), ecc as nat, fp.g(), fp.m())
                implies words(codeword@) == words(sent) by {
                lemma_erasure_decode(
                    words(received), words(codeword@), words(sent), erasures@, nats(s@), nats(mags@),
                    ecc as nat, fp.g(), fp.m(), fp.w(),
                );
            }
        }
    }
    let v2 = to_u128s(codeword, Ghost(fp.w()));
    if !codeword_check(&v2, ecc, fp) {
        return Err(RsError::TooManyErrors);
    }
    Ok(erasures.len())
}

/// Find and repair up to `ecc / 2` words in unknown positions (errors) so
/// that `codeword` becomes a codeword again. Returns the number of
/// repaired words, `0` when `codeword` was already a codeword. A codeword
/// received with changes at no more than `ecc / 2` positions is always
/// given back.
#[verifier::rlimit(60)]
pub fn correct_errors<W: Word>(codeword: &mut [W], ecc: usize, fp: &FieldParams) -> (r: Result<usize, RsError>)
    requires
        fp.wf(),
        fp.w() <= W::width_of(),
        block_ok(old(codeword)@, fp.w()),
        ecc < usize::MAX / 4,
    ensures
        block_ok(final(codeword)@, fp.w()),
        final(codeword)@.len() == old(codeword)@.len(),
        is_codeword(words(old(codeword)@), ecc as nat, fp.g(), fp.m())
            ==> r == Ok::<usize, RsError>(0) && final(codeword)@ == old(codeword)@,
        r is Ok <==> is_codeword(words(final(codeword)@), ecc as nat, fp.g(), fp.m()),
        r matches Ok(n) ==> exists|locs: Seq<usize>| #[trigger] changed_only_at(old(codeword)@, final(codeword)@, locs)
            && locs.len() == n,
        r matches Ok(n) ==> 2 * n <= ecc,
        rs_field_facts(fp.g(), fp.m(), fp.w(), old(codeword)@.len())
            ==> forall|sent: Seq<W>, locs: Seq<usize>| #[trigger] changed_only_at(sent, old(codeword)@, locs)
                && 2 * locs.len() <= ecc
                && block_ok(sent, fp.w())
                && is_codeword(words(sent), ecc as nat, fp.g(), fp.m())
                ==> r is Ok && words(final(codeword)@) == words(sent),
        rs_field_facts(fp.g(), fp.m(), fp.w(), old(codeword)@.len())
            ==> forall|sent: Seq<W>, locs: Seq<usize>| #[trigger] changed_only_at(sent, old(codeword)@, locs)
                && 2 * locs.len() <= ecc
                && block_ok(sent, fp.w())
                && is_codeword(words(sent), ecc as nat, fp.g(), fp.m())
                && exactly_changed(sent, old(codeword)@, locs)
                ==> (r matches Ok(n) && n == locs.len()),
{
    let ghost received = codeword@;
    let ghost premise = rs_field_facts(fp.g(), fp.m(), fp.w(), received.len());
    let len = codeword.len();
    let v = to_u128s(codeword, Ghost(fp.w()));
    let s = syndromes(&v, ecc, fp);
    if all_zero(&s) {
        proof {
            assert forall|i: nat| i < ecc implies #[trigger] syndrome(words(codeword@), i, fp.g(), fp.m()) == 0 by {
                assert(s@[i as int] == 0);
            }
            assert(changed_only_at(codeword@, codeword@, Seq::<usize>::empty()));
            if premise {
                assert forall|sent: Seq<W>, locs: Seq<usize>| #[trigger] changed_only_at(sent, received, locs)
                    && 2 * locs.len() <= ecc
                    && block_ok(sent, fp.w())
                    && is_codeword(words(sent), ecc as nat, fp.g(), fp.m())
                    implies words(codeword@) == words(sent) by {
                    lemma_repair_restores(sent, received, locs, ecc as nat, fp.g(), fp.m(), fp.w());
                }
                assert forall|sent: Seq<W>, locs: Seq<usize>| #[trigger] changed_only_at(sent, received, locs)
                    && 2 * locs.len() <= ecc
                    && block_ok(sent, fp.w())
                    && is_codeword(words(sent), ecc as nat, fp.g(), fp.m())
                    && exactly_changed(sent, received, locs)
                    implies locs.len() == 0 by {
                    lemma_repair_restores(sent, received, locs, ecc as nat, fp.g(), fp.m(), fp.w());
                    if locs.len() > 0 {
                        assert(words(sent)[locs[0] as int] != words(received)[locs[0] as int]);
                    }
                }
            }
        }
        return Ok(0);
    }
    proof {
        let j = choose|j: int| 0 <= j < s@.len() && s@[j] != 0;
        assert(syndrome(words(codeword@), j as nat, fp.g(), fp.m()) != 0);
    }
    let ghost has = premise && exists|sent: Seq<W>, locs: Seq<usize>| #[trigger] changed_only_at(sent, received, locs)
        && 2 * locs.len() <= ecc
        && block_ok(sent, fp.w())
        && is_codeword(words(sent), ecc as nat, fp.g(), fp.m());
    let ghost has_exact = premise && exists|sent: Seq<W>, locs: Seq<usize>| #[trigger] changed_only_at(sent, received, locs)
        && 2 * locs.len() <= ecc
        && block_ok(sent, fp.w())
        && is_codeword(words(sent), ecc as nat, fp.g(), fp.m())
        && exactly_changed(sent, received, locs);
    let ghost pick: (Seq<W>, Seq<usize>) = if has_exact {
        choose|sent: Seq<W>, locs: Seq<usize>| #[trigger] changed_only_at(sent, received, locs)
            && 2 * locs.len() <= ecc
            && block_ok(sent, fp.w())
            && is_codeword(words(sent), ecc as nat, fp.g(), fp.m())
            && exactly_changed(sent, received, locs)
    } else {
        choose|sent: Seq<W>, locs: Seq<usize>| #[trigger] changed_only_at(sent, received, locs)
            && 2 * locs.len() <= ecc
            && block_ok(sent, fp.w())
            && is_codeword(words(sent), ecc as nat, fp.g(), fp.m())
    };
    let ghost e0 = seq_xor(words(received), words(pick.0));
    proof {
        if has {
            lemma_many_errors(received, pick.0, pick.1, nats(s@), ecc as nat, fp.g(), fp.m(), fp.w());
            assert forall|i: int| 0 <= i < ecc implies #[trigger] nats(s@)[i] == syndrome(words(received), i as nat, fp.g(), fp.m()) by {
                assert(s@[i] as nat == syndrome(words(received), i as nat, fp.g(), fp.m()));
            }
        }
    }
    let (lam, tp) = error_locator(&s, fp, Ghost(e0), Ghost(pick.1));
    if lam.len() == 0 || lam.len() - 1 > ecc / 2 {
        return Err(RsError::TooManyErrors);
    }
    if tp.len() - 1 > ecc / 2 {
        return Err(RsError::TooManyErrors);
    }
    let locs = error_points(len, &tp, fp);
    proof {
        if premise && locs@.len() > tp@.len() - 1 {
            let zs = erasure_points(len as nat, locs@, fp.g(), fp.m());
            crate::rs::forney::lemma_points_ok(len as nat, locs@, fp.g(), fp.m(), fp.w());
            assert forall|t: int| 0 <= t < nats(tp@).len() implies #[trigger] nats(tp@)[t] < exp2(fp.w()) by {
                assert(nats(tp@)[t] == tp@[t] as nat);
            }
            assert forall|t: int| 0 <= t < zs.len() implies crate::shamir::peval(nats(tp@), #[trigger] zs[t], fp.m()) == 0 by {
                assert(zs[t] == point(len as nat, locs@[t] as int, fp.g(), fp.m()));
            }
            crate::rs::bm::lemma_coeffs_zero(nats(tp@), zs, fp.m(), fp.w());
            assert(nats(tp@)[tp@.len() - 1] == 0);
            assert(false);
        }
    }
    if locs.len() > tp.len() - 1 {
        return Err(RsError::TooManyErrors);
    }
    let lam2 = erasure_locator(len, locs.as_slice(), fp);
    let mags = error_magnitudes(len, &s, &lam2, locs.as_slice(), fp);
    apply_corrections(codeword, locs.as_slice(), &mags, fp);
    proof {
        if has {
            let sent = pick.0;
            assert forall|j: int| 0 <= j < received.len() && !locs@.contains(j as usize)
                implies #[trigger] words(sent)[j] == words(received)[j] by {
                if e0[j] != 0 {
                    assert(locs@.contains(j as usize));
                }
                crate::poly::lemma_pxor_eq_zero(words(received)[j], words(sent)[j]);
            }
            lemma_erasure_decode(
                words(received), words(codeword@), words(sent), locs@, nats(s@), nats(mags@),
                ecc as nat, fp.g(), fp.m(), fp.w(),
            );
        }
    }
    let v2 = to_u128s(codeword, Ghost(fp.w()));
    if !codeword_check(&v2, ecc, fp) {
        return Err(RsError::TooManyErrors);
    }
    proof {
        assert(changed_only_at(old(codeword)@, codeword@, locs@));
        if premise {
            assert forall|sent: Seq<W>, l: Seq<usize>| #[trigger] changed_only_at(sent, received, l)
                && 2 * l.len() <= ecc
                && block_ok(sent, fp.w())
                && is_codeword(words(sent), ecc as nat, fp.g(), fp.m())
                implies words(codeword@) == words(sent) by {
                lemma_changes_compose(sent, received, codeword@, l, locs@);
                lemma_repair_restores(sent, codeword@, l + locs@, ecc as nat, fp.g(), fp.m(), fp.w());
            }
            if has_exact {
                let p1 = pick.1;
                assert forall|t: int| 0 <= t < p1.len() implies locs@.contains(#[trigger] p1[t]) by {
                    assert(e0[p1[t] as int] == pxor(words(received)[p1[t] as int], words(pick.0)[p1[t] as int]));
                    if e0[p1[t] as int] == 0 {
                        crate::poly::lemma_pxor_eq_zero(words(received)[p1[t] as int], words(pick.0)[p1[t] as int]);
                    }
                }
                lemma_count(p1, locs@);
                assert forall|sent: Seq<W>, l: Seq<usize>| #[trigger] changed_only_at(sent, received, l)
                    && 2 * l.len() <= ecc
                    && block_ok(sent, fp.w())
                    && is_codeword(words(sent), ecc as nat, fp.g(), fp.m())
                    && exactly_changed(sent, received, l)
                    implies locs@.len() == l.len() by {
                    assert(words(codeword@) == words(sent));
                    assert forall|t: int| 0 <= t < l.len() implies locs@.contains(#[trigger] l[t]) by {
                        let j = l[t] as int;
                        assert(e0[j] == pxor(words(received)[j], words(pick.0)[j]));
                        if e0[j] == 0 {
                            crate::poly::lemma_pxor_eq_zero(words(received)[j], words(pick.0)[j]);
                        }
                    }
                    lemma_count(l, locs@);
                    assert forall|t: int| 0 <= t < p1.len() implies l.contains(#[trigger] p1[t]) by {
                        let j = p1[t] as int;
                        if !l.contains(j as usize) {
                            assert(sent[j] == received[j]);
                        }
                    }
                    lemma_count(p1, l);
                }
            }
        }
    }
    Ok(locs.len())
}

/// The listed positions are distinct positions of the word at which
/// `received` differs from `sent`.
pub open spec fn exactly_changed<W: Word>(sent: Seq<W>, received: Seq<W>, locs: Seq<usize>) -> bool {
    &&& locs.no_duplicates()
    &&& forall|t: int| 0 <= t < locs.len() ==> #[trigger] locs[t] < received.len()
        && words(sent)[locs[t] as int] != words(received)[locs[t] as int]
}

/// A list without repeats whose entries all occur in `found` is no longer
/// than `found`.
proof fn lemma_count(l: Seq<usize>, found: Seq<usize>)
    requires
        l.no_duplicates(),
        forall|t: int| 0 <= t < l.len() ==> found.contains(#[trigger] l[t]),
    ensures
        l.len() <= found.len(),
{
    l.unique_seq_to_set();
    found.lemma_cardinality_of_set();
    assert(l.to_set().subset_of(found.to_set()));
    vstd::set_lib::lemma_len_subset(l.to_set(), found.to_set());
}

/// A codeword `sent` received with changes only at the positions `locs`,
/// at most half as many as there are syndromes: the syndromes are those of
/// the difference, whose non-zero entries stand at those positions.
proof fn lemma_many_errors<W: Word>(received: Seq<W>, sent: Seq<W>, locs: Seq<usize>, s: Seq<nat>, ecc: nat, g: nat, m: nat, w: nat)
    requires
        rs_field_facts(g, m, w, received.len()),
        received.len() <= usize::MAX,
        block_ok(received, w),
        block_ok(sent, w),
        changed_only_at(sent, received, locs),
        is_codeword(words(sent), ecc, g, m),
        2 * locs.len() <= ecc,
        s.len() == ecc,
        forall|i: int| 0 <= i < ecc ==> #[trigger] s[i] == syndrome(words(received), i as nat, g, m),
    ensures
        many_errors(s, seq_xor(words(received), words(sent)), locs, g, m, w),
{
    crate::shamir::algebra::lemma_m_pos(m, w);
    let rw = words(received);
    let sw = words(sent);
    let e = seq_xor(rw, sw);
    assert forall|u: int| 0 <= u < e.len() implies #[trigger] e[u] < exp2(w) by {
        crate::poly::lemma_pxor_bound(rw[u], sw[u], w);
    }
    assert forall|j: int| 0 <= j < e.len() && e[j] != 0 implies locs.contains(j as usize) by {
        if !locs.contains(j as usize) {
            assert(sent[j] == received[j]);
            crate::poly::lemma_pxor_self(rw[j]);
        }
    }
    assert forall|t: int| 0 <= t < s.len() implies #[trigger] s[t] == syndrome(e, t as nat, g, m) by {
        assert(syndrome(sw, t as nat, g, m) == 0);
        crate::rs::algebra::lemma_beval_xor(rw, sw, powmod(g, t as nat, m), m);
        lemma_pxor_zero(syndrome(rw, t as nat, g, m));
    }
}

/// The entries of `found` that `erasures` does not list, in their order.
fn without(found: &Vec<usize>, erasures: &[usize]) -> (r: Vec<usize>)
    requires
        forall|a: int, b: int| 0 <= a < b < found@.len() ==> found@[a] < found@[b],
    ensures
        r@.len() <= found@.len(),
        forall|a: int, b: int| 0 <= a < b < r@.len() ==> r@[a] < r@[b],
        forall|t: int| 0 <= t < r@.len() ==> found@.contains(#[trigger] r@[t]) && !erasures@.contains(r@[t]),
        forall|x: usize| #[trigger] found@.contains(x) && !erasures@.contains(x) ==> r@.contains(x),
{
    let mut r: Vec<usize> = Vec::new();
    let mut i: usize = 0;
    while i < found.len()
        invariant
            forall|a: int, b: int| 0 <= a < b < found@.len() ==> found@[a] < found@[b],
            0 <= i <= found@.len(),
            r@.len() <= i,
            forall|a: int, b: int| 0 <= a < b < r@.len() ==> r@[a] < r@[b],
            forall|t: int| 0 <= t < r@.len() ==> exists|k: int| 0 <= k < i && found@[k] == #[trigger] r@[t],
            forall|t: int| 0 <= t < r@.len() ==> !erasures@.contains(#[trigger] r@[t]),
            forall|k: int| 0 <= k < i && !erasures@.contains(found@[k]) ==> r@.contains(#[trigger] found@[k]),
        decreases found@.len() - i,
    {
        let x = found[i];
        let mut listed = false;
        let mut t: usize = 0;
        while t < erasures.len()
            invariant
                0 <= t <= erasures@.len(),
                listed <==> exists|t2: int| 0 <= t2 < t && erasures@[t2] == x,
            decreases erasures@.len() - t,
        {
            if erasures[t] == x {
                listed = true;
            }
            t = t + 1;
        }
        let ghost r0 = r@;
        if !listed {
            proof {
                assert forall|t2: int| 0 <= t2 < r0.len() implies r0[t2] < x by {
                    let k = choose|k: int| 0 <= k < i && found@[k] == r0[t2];
                }
            }
            r.push(x);
            proof {
                assert(r@[r0.len() as int] == x);
                assert forall|k: int| 0 <= k < i + 1 && !erasures@.contains(found@[k]) implies r@.contains(#[trigger] found@[k]) by {
                    if k < i {
                        let t2 = choose|t2: int| 0 <= t2 < r0.len() && r0[t2] == found@[k];
                        assert(r@[t2] == found@[k]);
                    }
                }
                assert forall|t2: int| 0 <= t2 < r@.len() implies exists|k: int| 0 <= k < i + 1 && found@[k] == #[trigger] r@[t2] by {
                    if t2 < r0.len() {
                        let k = choose|k: int| 0 <= k < i && found@[k] == r0[t2];
                    } else {
                        assert(found@[i as int] == r@[t2]);
                    }
                }
            }
        } else {
            proof {
                assert(erasures@.contains(x));
            }
        }
        i = i + 1;
    }
    proof {
        assert forall|t: int| 0 <= t < r@.len() implies found@.contains(#[trigger] r@[t]) by {
            let k = choose|k: int| 0 <= k < found@.len() && found@[k] == r@[t];
        }
        assert forall|x: usize| #[trigger] found@.contains(x) && !erasures@.contains(x) implies r@.contains(x) by {
            let k = choose|k: int| 0 <= k < found@.len() && found@[k] == x;
            assert(r@.contains(found@[k]));
        }
    }
    r
}

/// A word damaged at the listed positions and at the positions `errs`,
/// then repaired at the positions `found` and the listed ones into a
/// codeword, is the codeword that was sent, when the positions involved
/// are few enough.
proof fn lemma_mixed_cover_many<W: Word>(
    sent: Seq<W>,
    received: Seq<W>,
    repaired: Seq<W>,
    erasures: Seq<usize>,
    errs: Seq<usize>,
    found: Seq<usize>,
    ecc: nat,
    g: nat,
    m: nat,
    w: nat,
)
    requires
        rs_field_facts(g, m, w, sent.len()),
        sent.len() <= usize::MAX,
        block_ok(sent, w),
        block_ok(repaired, w),
        is_codeword(words(sent), ecc, g, m),
        is_codeword(words(repaired), ecc, g, m),
        changed_only_at(sent, received, erasures + errs),
        changed_only_at(received, repaired, found + erasures),
        erasures.len() + errs.len() + found.len() <= ecc,
    ensures
        words(repaired) == words(sent),
{
    let l = erasures + errs + found;
    let first = erasures + errs;
    let both = found + erasures;
    assert forall|j: int| 0 <= j < sent.len() && repaired[j] != sent[j] implies l.contains(j as usize) by {
        if repaired[j] != received[j] {
            assert(both.contains(j as usize));
            let t = choose|t: int| 0 <= t < both.len() && both[t] == j as usize;
            if t < found.len() {
                assert(l[first.len() + t] == j as usize);
            } else {
                assert(l[t - found.len()] == j as usize);
            }
        } else {
            assert(first.contains(j as usize));
            let t = choose|t: int| 0 <= t < first.len() && first[t] == j as usize;
            assert(l[t] == j as usize);
        }
    }
    lemma_repair_restores(sent, repaired, l, ecc, g, m, w);
}

/// The mixed repair once the syndromes `s` of `codeword` are known and
/// not all zero.
#[verifier::rlimit(80)]
fn decode_mixed<W: Word>(codeword: &mut [W], erasures: &[usize], s: &Vec<u128>, ecc: usize, fp: &FieldParams) -> (r: Result<usize, RsError>)
    requires
        fp.wf(),
        fp.w() <= W::width_of(),
        block_ok(old(codeword)@, fp.w()),
        ecc < usize::MAX / 4,
        old(codeword)@.len() < usize::MAX / 4,
        forall|t: int| 0 <= t < erasures@.len() ==> #[trigger] erasures@[t] < old(codeword)@.len(),
        erasures@.len() <= ecc,
        s@.len() == ecc,
        s@.len() >= 1,
        reduced(s@, fp.w()),
        forall|i: int| 0 <= i < ecc ==> (#[trigger] s@[i]) as nat == syndrome(words(old(codeword)@), i as nat, fp.g(), fp.m()),
        !is_codeword(words(old(codeword)@), ecc as nat, fp.g(), fp.m()),
    ensures
        block_ok(final(codeword)@, fp.w()),
        final(codeword)@.len() == old(codeword)@.len(),
        r is Ok <==> is_codeword(words(final(codeword)@), ecc as nat, fp.g(), fp.m()),
        r matches Ok(n) ==> exists|locs: Seq<usize>| #[trigger] changed_only_at(old(codeword)@, final(codeword)@, locs)
            && locs.len() == n && erasures@.len() <= n,
        r matches Ok(n) ==> 2 * n <= ecc + erasures@.len(),
        rs_field_facts(fp.g(), fp.m(), fp.w(), old(codeword)@.len())
            && (forall|a: int, b: int| 0 <= a < b < erasures@.len() ==> erasures@[a] != erasures@[b])
            ==> forall|sent: Seq<W>, errs: Seq<usize>| #[trigger] changed_only_at(sent, old(codeword)@, erasures@ + errs)
                && 2 * errs.len() + erasures@.len() <= ecc
                && block_ok(sent, fp.w())
                && is_codeword(words(sent), ecc as nat, fp.g(), fp.m())
                ==> r is Ok && words(final(codeword)@) == words(sent),
        rs_field_facts(fp.g(), fp.m(), fp.w(), old(codeword)@.len())
            && (forall|a: int, b: int| 0 <= a < b < erasures@.len() ==> erasures@[a] != erasures@[b])
            ==> forall|sent: Seq<W>, errs: Seq<usize>| #[trigger] changed_only_at(sent, old(codeword)@, erasures@ + errs)
                && 2 * errs.len() + erasures@.len() <= ecc
                && block_ok(sent, fp.w())
                && is_codeword(words(sent), ecc as nat, fp.g(), fp.m())
                && exactly_changed(sent, old(codeword)@, errs)
                && (forall|t: int| 0 <= t < errs.len() ==> !erasures@.contains(#[trigger] errs[t]))
                ==> (r matches Ok(n) && n == erasures@.len() + errs.len()),
{
    let ghost premise = rs_field_facts(fp.g(), fp.m(), fp.w(), old(codeword)@.len())
        && (forall|a: int, b: int| 0 <= a < b < erasures@.len() ==> erasures@[a] != erasures@[b]);
    let ghost received = codeword@;
    let len = codeword.len();
    let ghost has = premise && exists|sent: Seq<W>, errs: Seq<usize>| #[trigger] changed_only_at(sent, received, erasures@ + errs)
        && 2 * errs.len() + erasures@.len() <= ecc
        && block_ok(sent, fp.w())
        && is_codeword(words(sent), ecc as nat, fp.g(), fp.m());
    let ghost has_exact = premise && exists|sent: Seq<W>, errs: Seq<usize>| #[trigger] changed_only_at(sent, received, erasures@ + errs)
        && 2 * errs.len() + erasures@.len() <= ecc
        && block_ok(sent, fp.w())
        && is_codeword(words(sent), ecc as nat, fp.g(), fp.m())
        && exactly_changed(sent, received, errs)
        && (forall|t: int| 0 <= t < errs.len() ==> !erasures@.contains(#[trigger] errs[t]));
    let ghost pick: (Seq<W>, Seq<usize>) = if has_exact {
        choose|sent: Seq<W>, errs: Seq<usize>| #[trigger] changed_only_at(sent, received, erasures@ + errs)
            && 2 * errs.len() + erasures@.len() <= ecc
            && block_ok(sent, fp.w())
            && is_codeword(words(sent), ecc as nat, fp.g(), fp.m())
            && exactly_changed(sent, received, errs)
            && (forall|t: int| 0 <= t < errs.len() ==> !erasures@.contains(#[trigger] errs[t]))
    } else {
        choose|sent: Seq<W>, errs: Seq<usize>| #[trigger] changed_only_at(sent, received, erasures@ + errs)
            && 2 * errs.len() + erasures@.len() <= ecc
            && block_ok(sent, fp.w())
            && is_codeword(words(sent), ecc as nat, fp.g(), fp.m())
    };
    let ghost pts = erasure_points(len as nat, erasures@, fp.g(), fp.m());
    let ghost bp = crate::rs::forney::prod_poly(pts, erasures@.len(), fp.m());
    let ghost e0 = seq_xor(words(received), words(pick.0));
    let ghost e2 = crate::rs::bm::weigh(e0, bp, fp.g(), fp.m());
    let fs = forney_syndromes(len, s, erasures, fp);
    proof {
        if has {
            lemma_mixed_many(received, pick.0, erasures@, pick.1, nats(s@), nats(fs@), ecc as nat, fp.g(), fp.m(), fp.w());
        }
    }
    let (lam, tp) = error_locator(&fs, fp, Ghost(e2), Ghost(pick.1));
    if lam.len() == 0 || lam.len() - 1 > (ecc - erasures.len()) / 2 {
        return Err(RsError::TooManyErrors);
    }
    if tp.len() - 1 > (ecc - erasures.len()) / 2 {
        return Err(RsError::TooManyErrors);
    }
    let found = error_points(len, &tp, fp);
    proof {
        if premise && found@.len() > tp@.len() - 1 {
            let zs = erasure_points(len as nat, found@, fp.g(), fp.m());
            crate::rs::forney::lemma_points_ok(len as nat, found@, fp.g(), fp.m(), fp.w());
            assert forall|t: int| 0 <= t < nats(tp@).len() implies #[trigger] nats(tp@)[t] < exp2(fp.w()) by {
                assert(nats(tp@)[t] == tp@[t] as nat);
            }
            assert forall|t: int| 0 <= t < zs.len() implies crate::shamir::peval(nats(tp@), #[trigger] zs[t], fp.m()) == 0 by {
                assert(zs[t] == point(len as nat, found@[t] as int, fp.g(), fp.m()));
            }
            crate::rs::bm::lemma_coeffs_zero(nats(tp@), zs, fp.m(), fp.w());
            assert(nats(tp@)[tp@.len() - 1] == 0);
            assert(false);
        }
    }
    if found.len() > tp.len() - 1 {
        return Err(RsError::TooManyErrors);
    }
    let mut locs = without(&found, erasures);
    let ghost fresh = locs@;
    locs.extend_from_slice(erasures);
    proof {
        assert(locs@ == fresh + erasures@);
        assert forall|t: int| 0 <= t < locs@.len() implies #[trigger] locs@[t] < len by {
            if t >= fresh.len() {
                assert(locs@[t] == erasures@[t - fresh.len()]);
            } else {
                assert(found@.contains(fresh[t]));
            }
        }
    }
    let lam2 = erasure_locator(len, locs.as_slice(), fp);
    let mags = error_magnitudes(len, s, &lam2, locs.as_slice(), fp);
    apply_corrections(codeword, locs.as_slice(), &mags, fp);
    proof {
        if has {
            let sent = pick.0;
            assert forall|a: int, b: int| 0 <= a < b < locs@.len() implies locs@[a] != locs@[b] by {
                if a < fresh.len() && b >= fresh.len() {
                    assert(locs@[b] == erasures@[b - fresh.len()]);
                    assert(erasures@.contains(erasures@[b - fresh.len()]));
                    assert(!erasures@.contains(fresh[a]));
                } else if b >= fresh.len() {
                    assert(locs@[a] == erasures@[a - fresh.len()]);
                    assert(locs@[b] == erasures@[b - fresh.len()]);
                }
            }
            assert forall|j: int| 0 <= j < received.len() && !locs@.contains(j as usize)
                implies #[trigger] words(sent)[j] == words(received)[j] by {
                if e0[j] != 0 {
                    if erasures@.contains(j as usize) {
                        let t = choose|t: int| 0 <= t < erasures@.len() && erasures@[t] == j as usize;
                        assert(locs@[fresh.len() + t] == j as usize);
                    } else {
                        let x = point(len as nat, j, fp.g(), fp.m());
                        crate::rs::forney::lemma_points_ok(len as nat, erasures@, fp.g(), fp.m(), fp.w());
                        crate::rs::distance::lemma_powmod_fits(fp.g(), (len - 1 - j) as nat, fp.m(), fp.w());
                        assert forall|t: int| 0 <= t < erasures@.len() implies #[trigger] pts[t] != x by {
                            assert(erasures@[t] != j as usize);
                            assert((len - 1 - erasures@[t]) as nat != (len - 1 - j) as nat);
                        }
                        crate::rs::forney::lemma_prod_poly_nonzero(pts, erasures@.len(), x, fp.m(), fp.w());
                        crate::poly::lemma_pxor_bound(words(received)[j], words(sent)[j], fp.w());
                        crate::raid::algebra::lemma_no_zero_divisors(e0[j], crate::shamir::peval(bp, x, fp.m()), fp.m(), fp.w());
                        assert(e2[j] != 0);
                        assert(found@.contains(j as usize));
                        assert(fresh.contains(j as usize));
                        let t = choose|t: int| 0 <= t < fresh.len() && fresh[t] == j as usize;
                        assert(locs@[t] == j as usize);
                    }
                }
                crate::poly::lemma_pxor_eq_zero(words(received)[j], words(sent)[j]);
            }
            lemma_erasure_decode(
                words(received), words(codeword@), words(sent), locs@, nats(s@), nats(mags@),
                ecc as nat, fp.g(), fp.m(), fp.w(),
            );
        }
    }
    let v2 = to_u128s(codeword, Ghost(fp.w()));
    if !codeword_check(&v2, ecc, fp) {
        return Err(RsError::TooManyErrors);
    }
    proof {
        assert(changed_only_at(old(codeword)@, codeword@, locs@));
        if premise {
            assert forall|sent: Seq<W>, errs: Seq<usize>| #[trigger] changed_only_at(sent, received, erasures@ + errs)
                && 2 * errs.len() + erasures@.len() <= ecc
                && block_ok(sent, fp.w())
                && is_codeword(words(sent), ecc as nat, fp.g(), fp.m())
                implies words(codeword@) == words(sent) by {
                lemma_mixed_cover_many(sent, received, codeword@, erasures@, errs, fresh, ecc as nat, fp.g(), fp.m(), fp.w());
            }
            if has_exact {
                let p0 = pick.0;
                let p1 = pick.1;
                assert forall|t: int| 0 <= t < p1.len() implies fresh.contains(#[trigger] p1[t]) by {
                    let j = p1[t] as int;
                    assert(e0[j] == pxor(words(received)[j], words(p0)[j]));
                    if e0[j] == 0 {
                        crate::poly::lemma_pxor_eq_zero(words(received)[j], words(p0)[j]);
                    }
                    assert(!erasures@.contains(p1[t]));
                    let x = point(len as nat, j, fp.g(), fp.m());
                    crate::rs::forney::lemma_points_ok(len as nat, erasures@, fp.g(), fp.m(), fp.w());
                    crate::rs::distance::lemma_powmod_fits(fp.g(), (len - 1 - j) as nat, fp.m(), fp.w());
                    assert forall|t2: int| 0 <= t2 < erasures@.len() implies #[trigger] pts[t2] != x by {
                        assert(erasures@[t2] != j as usize);
                        assert((len - 1 - erasures@[t2]) as nat != (len - 1 - j) as nat);
                    }
                    crate::rs::forney::lemma_prod_poly_nonzero(pts, erasures@.len(), x, fp.m(), fp.w());
                    crate::poly::lemma_pxor_bound(words(received)[j], words(p0)[j], fp.w());
                    crate::raid::algebra::lemma_no_zero_divisors(e0[j], crate::shamir::peval(bp, x, fp.m()), fp.m(), fp.w());
                    assert(e2[j] != 0);
                    assert(found@.contains(j as usize));
                }
                lemma_count(p1, fresh);
                assert(fresh.len() == p1.len());
                assert forall|sent: Seq<W>, l: Seq<usize>| #[trigger] changed_only_at(sent, received, erasures@ + l)
                    && 2 * l.len() + erasures@.len() <= ecc
                    && block_ok(sent, fp.w())
                    && is_codeword(words(sent), ecc as nat, fp.g(), fp.m())
                    && exactly_changed(sent, received, l)
                    && (forall|t: int| 0 <= t < l.len() ==> !erasures@.contains(#[trigger] l[t]))
                    implies locs@.len() == erasures@.len() + l.len() by {
                    assert(words(codeword@) == words(sent));
                    assert(words(codeword@) == words(p0));
                    assert forall|t: int| 0 <= t < l.len() implies p1.contains(#[trigger] l[t]) by {
                        let j = l[t] as int;
                        assert(words(p0)[j] == words(sent)[j]);
                        if !(erasures@ + p1).contains(j as usize) {
                            assert(p0[j] == received[j]);
                        }
                        let u = choose|u: int| 0 <= u < (erasures@ + p1).len() && (erasures@ + p1)[u] == j as usize;
                        if u < erasures@.len() {
                            assert(erasures@.contains(l[t]));
                        } else {
                            assert(p1[u - erasures@.len()] == j as usize);
                        }
                    }
                    lemma_count(l, p1);
                    assert forall|t: int| 0 <= t < p1.len() implies l.contains(#[trigger] p1[t]) by {
                        let j = p1[t] as int;
                        assert(words(p0)[j] == words(sent)[j]);
                        if !(erasures@ + l).contains(j as usize) {
                            assert(sent[j] == received[j]);
                        }
                        let u = choose|u: int| 0 <= u < (erasures@ + l).len() && (erasures@ + l)[u] == j as usize;
                        if u < erasures@.len() {
                            assert(erasures@.contains(p1[t]));
                        } else {
                            assert(l[u - erasures@.len()] == j as usize);
                        }
                    }
                    lemma_count(p1, l);
                }
            }
        }
    }
    Ok(locs.len())
}

/// A codeword `sent` received with changes at the listed positions and at
/// the positions `errs`: the syndromes with the listed positions hidden are
/// those of the difference weighted by the product of `x + X_t` over the
/// listed points, whose non-zero entries stand at positions of `errs`.
#[verifier::rlimit(40)]
proof fn lemma_mixed_many<W: Word>(
    received: Seq<W>,
    sent: Seq<W>,
    erasures: Seq<usize>,
    errs: Seq<usize>,
    s: Seq<nat>,
    f: Seq<nat>,
    ecc: nat,
    g: nat,
    m: nat,
    w: nat,
)
    requires
        rs_field_facts(g, m, w, received.len()),
        received.len() <= usize::MAX,
        block_ok(received, w),
        block_ok(sent, w),
        changed_only_at(sent, received, erasures + errs),
        is_codeword(words(sent), ecc, g, m),
        s.len() == ecc,
        forall|i: int| 0 <= i < ecc ==> #[trigger] s[i] == syndrome(words(received), i as nat, g, m),
        2 * errs.len() + erasures.len() <= ecc,
        forall|t: int| 0 <= t < erasures.len() ==> #[trigger] erasures[t] < received.len(),
        f.len() == ecc - erasures.len(),
        forall|i: int| 0 <= i < f.len() ==> #[trigger] f[i]
            == forney_all(s, erasure_points(received.len(), erasures, g, m), erasures.len(), m)[i],
    ensures
        many_errors(
            f,
            crate::rs::bm::weigh(
                seq_xor(words(received), words(sent)),
                crate::rs::forney::prod_poly(erasure_points(received.len(), erasures, g, m), erasures.len(), m),
                g,
                m,
            ),
            errs,
            g,
            m,
            w,
        ),
{
    crate::shamir::algebra::lemma_m_pos(m, w);
    let n = received.len();
    let rw = words(received);
    let sw = words(sent);
    let e = seq_xor(rw, sw);
    let pts = erasure_points(n, erasures, g, m);
    let kk = erasures.len();
    let b = crate::rs::forney::prod_poly(pts, kk, m);
    let e2 = crate::rs::bm::weigh(e, b, g, m);
    let locs = erasures + errs;
    assert forall|u: int| 0 <= u < e.len() implies #[trigger] e[u] < exp2(w) by {
        crate::poly::lemma_pxor_bound(rw[u], sw[u], w);
    }
    assert forall|u: int| 0 <= u < e2.len() implies #[trigger] e2[u] < exp2(w) by {
        crate::shamir::algebra::lemma_mulmod_fits(e[u], crate::shamir::peval(b, point(n, u, g, m), m), m, w);
    }
    assert forall|t: int| 0 <= t < s.len() implies #[trigger] s[t] == syndrome(e, t as nat, g, m) by {
        assert(syndrome(sw, t as nat, g, m) == 0);
        crate::rs::algebra::lemma_beval_xor(rw, sw, powmod(g, t as nat, m), m);
        lemma_pxor_zero(syndrome(rw, t as nat, g, m));
    }
    crate::rs::forney::lemma_forney_all_zsum(e, s, pts, kk, g, m, w);
    assert forall|t: int| 0 <= t < f.len() implies #[trigger] f[t] == syndrome(e2, t as nat, g, m) by {
        crate::rs::bm::lemma_weigh_zsum(e, b, t as nat, g, m, w);
        crate::rs::distance::lemma_zsum_syndrome(e2, t as nat, g, m, w);
    }
    assert forall|j: int| 0 <= j < e2.len() && e2[j] != 0 implies errs.contains(j as usize) by {
        let x = point(n, j, g, m);
        if e[j] == 0 {
            crate::shamir::algebra::lemma_mulmod_zero(crate::shamir::peval(b, x, m), m);
        }
        if !locs.contains(j as usize) {
            assert(sent[j] == received[j]);
            crate::poly::lemma_pxor_self(rw[j]);
        }
        let t = choose|t: int| 0 <= t < locs.len() && locs[t] == j as usize;
        if t < kk {
            assert(pts[t] == x);
            crate::rs::forney::lemma_prod_poly_roots(pts, kk, t, m);
            crate::shamir::algebra::lemma_mulmod_zero(e[j], m);
        } else {
            assert(errs[t - kk] == j as usize);
        }
    }
}

/// Repair a mix of erasures, at the listed positions, and errors, at
/// unknown ones, as long as twice the errors plus the erasures are at
/// most `ecc`. Returns the number of repaired words, `0` when `codeword`
/// was already a codeword. When the damage lies only at distinct listed
/// positions, no more than `ecc` of them, or at such positions and at
/// unknown ones, with twice the unknown ones plus the listed ones at most
/// `ecc`, the repair succeeds and gives back the codeword that was sent.
pub fn correct<W: Word>(codeword: &mut [W], erasures: &[usize], ecc: usize, fp: &FieldParams) -> (r: Result<usize, RsError>)
    requires
        fp.wf(),
        fp.w() <= W::width_of(),
        block_ok(old(codeword)@, fp.w()),
        ecc < usize::MAX / 4,
        old(codeword)@.len() < usize::MAX / 4,
        forall|t: int| 0 <= t < erasures@.len() ==> #[trigger] erasures@[t] < old(codeword)@.len(),
    ensures
        block_ok(final(codeword)@, fp.w()),
        final(codeword)@.len() == old(codeword)@.len(),
        erasures@.len() > ecc ==> r == Err::<usize, RsError>(RsError::TooManyErrors) && final(codeword)@ == old(codeword)@,
        erasures@.len() <= ecc && is_codeword(words(old(codeword)@), ecc as nat, fp.g(), fp.m())
            ==> r == Ok::<usize, RsError>(0) && final(codeword)@ == old(codeword)@,
        r is Ok <==> erasures@.len() <= ecc && is_codeword(words(final(codeword)@), ecc as nat, fp.g(), fp.m()),
        r matches Ok(n) ==> exists|locs: Seq<usize>| #[trigger] changed_only_at(old(codeword)@, final(codeword)@, locs)
            && locs.len() == n && (n == 0 || erasures@.len() <= n),
        r matches Ok(n) ==> 2 * n <= ecc + erasures@.len(),
        rs_field_facts(fp.g(), fp.m(), fp.w(), old(codeword)@.len())
            && erasures@.len() <= ecc
            && (forall|a: int, b: int| 0 <= a < b < erasures@.len() ==> erasures@[a] != erasures@[b])
            ==> forall|sent: Seq<W>| #[trigger] changed_only_at(sent, old(codeword)@, erasures@)
                && block_ok(sent, fp.w())
                && is_codeword(words(sent), ecc as nat, fp.g(), fp.m())
                ==> r is Ok && words(final(codeword)@) == words(sent),
        rs_field_facts(fp.g(), fp.m(), fp.w(), old(codeword)@.len())
            && erasures@.len() + 2 <= ecc
            && (forall|a: int, b: int| 0 <= a < b < erasures@.len() ==> erasures@[a] != erasures@[b])
            ==> forall|sent: Seq<W>, q: usize| #[trigger] changed_only_at(sent, old(codeword)@, erasures@.push(q))
                && block_ok(sent, fp.w())
                && is_codeword(words(sent), ecc as nat, fp.g(), fp.m())
                ==> r is Ok && words(final(codeword)@) == words(sent),
        rs_field_facts(fp.g(), fp.m(), fp.w(), old(codeword)@.len())
            && (forall|a: int, b: int| 0 <= a < b < erasures@.len() ==> erasures@[a] != erasures@[b])
            ==> forall|sent: Seq<W>, errs: Seq<usize>| #[trigger] changed_only_at(sent, old(codeword)@, erasures@ + errs)
                && 2 * errs.len() + erasures@.len() <= ecc
                && block_ok(sent, fp.w())
                && is_codeword(words(sent), ecc as nat, fp.g(), fp.m())
                ==> r is Ok && words(final(codeword)@) == words(sent),
        rs_field_facts(fp.g(), fp.m(), fp.w(), old(codeword)@.len())
            ==> forall|sent: Seq<W>, errs: Seq<usize>| #[trigger] changed_only_at(sent, old(codeword)@, erasures@ + errs)
                && 2 * errs.len() + erasures@.len() <= ecc
                && block_ok(sent, fp.w())
                && is_codeword(words(sent), ecc as nat, fp.g(), fp.m())
                && exactly_changed(sent, old(codeword)@, erasures@ + errs)
                ==> (r matches Ok(n) && n == erasures@.len() + errs.len()),
        rs_field_facts(fp.g(), fp.m(), fp.w(), old(codeword)@.len())
            && (forall|a: int, b: int| 0 <= a < b < erasures@.len() ==> erasures@[a] != erasures@[b])
            && !is_codeword(words(old(codeword)@), ecc as nat, fp.g(), fp.m())
            ==> forall|sent: Seq<W>, errs: Seq<usize>| #[trigger] changed_only_at(sent, old(codeword)@, erasures@ + errs)
                && 2 * errs.len() + erasures@.len() <= ecc
                && block_ok(sent, fp.w())
                && is_codeword(words(sent), ecc as nat, fp.g(), fp.m())
                && exactly_changed(sent, old(codeword)@, errs)
                && (forall|t: int| 0 <= t < errs.len() ==> !erasures@.contains(#[trigger] errs[t]))
                ==> (r matches Ok(n) && n == erasures@.len() + errs.len()),
{
    if erasures.len() > ecc {
        return Err(RsError::TooManyErrors);
    }
    let v = to_u128s(codeword, Ghost(fp.w()));
    let s = syndromes(&v, ecc, fp);
    if all_zero(&s) {
        proof {
            assert forall|i: nat| i < ecc implies #[trigger] syndrome(words(codeword@), i, fp.g(), fp.m()) == 0 by {
                assert(s@[i as int] == 0);
            }
            assert(changed_only_at(codeword@, codeword@, Seq::<usize>::empty()));
            if rs_field_facts(fp.g(), fp.m(), fp.w(), codeword@.len()) {
                assert forall|sent: Seq<W>| #[trigger] changed_only_at(sent, codeword@, erasures@)
                    && block_ok(sent, fp.w())
                    && is_codeword(words(sent), ecc as nat, fp.g(), fp.m())
                    implies words(codeword@) == words(sent) by {
                    lemma_repair_restores(sent, codeword@, erasures@, ecc as nat, fp.g(), fp.m(), fp.w());
                }
                assert forall|sent: Seq<W>, errs: Seq<usize>| #[trigger] changed_only_at(sent, codeword@, erasures@ + errs)
                    && 2 * errs.len() + erasures@.len() <= ecc
                    && block_ok(sent, fp.w())
                    && is_codeword(words(sent), ecc as nat, fp.g(), fp.m())
                    implies words(codeword@) == words(sent) by {
                    lemma_repair_restores(sent, codeword@, erasures@ + errs, ecc as nat, fp.g(), fp.m(), fp.w());
                }
                assert forall|sent: Seq<W>, errs: Seq<usize>| #[trigger] changed_only_at(sent, codeword@, erasures@ + errs)
                    && 2 * errs.len() + erasures@.len() <= ecc
                    && block_ok(sent, fp.w())
                    && is_codeword(words(sent), ecc as nat, fp.g(), fp.m())
                    && exactly_changed(sent, codeword@, erasures@ + errs)
                    implies erasures@.len() + errs.len() == 0 by {
                    lemma_repair_restores(sent, codeword@, erasures@ + errs, ecc as nat, fp.g(), fp.m(), fp.w());
                    if (erasures@ + errs).len() > 0 {
                        assert(words(sent)[(erasures@ + errs)[0] as int] != words(codeword@)[(erasures@ + errs)[0] as int]);
                    }
                }
                if erasures@.len() + 2 <= ecc {
                    assert forall|sent: Seq<W>, q: usize| #[trigger] changed_only_at(sent, codeword@, erasures@.push(q))
                        && block_ok(sent, fp.w())
                        && is_codeword(words(sent), ecc as nat, fp.g(), fp.m())
                        implies words(codeword@) == words(sent) by {
                        lemma_repair_restores(sent, codeword@, erasures@.push(q), ecc as nat, fp.g(), fp.m(), fp.w());
                    }
                }
            }
        }
        return Ok(0);
    }
    proof {
        let j = choose|j: int| 0 <= j < s@.len() && s@[j] != 0;
        assert(syndrome(words(codeword@), j as nat, fp.g(), fp.m()) != 0);
        assert forall|i: int| 0 <= i < ecc implies (#[trigger] s@[i]) as nat == syndrome(words(codeword@), i as nat, fp.g(), fp.m()) by {}
    }
    let ghost received = codeword@;
    let r = decode_mixed(codeword, erasures, &s, ecc, fp);
    proof {
        if rs_field_facts(fp.g(), fp.m(), fp.w(), received.len())
            && (forall|a: int, b: int| 0 <= a < b < erasures@.len() ==> erasures@[a] != erasures@[b]) {
            assert forall|sent: Seq<W>| #[trigger] changed_only_at(sent, received, erasures@)
                && block_ok(sent, fp.w())
                && is_codeword(words(sent), ecc as nat, fp.g(), fp.m())
                implies r is Ok && words(codeword@) == words(sent) by {
                assert(erasures@ + Seq::<usize>::empty() =~= erasures@);
                assert(changed_only_at(sent, received, erasures@ + Seq::<usize>::empty()));
            }
            assert forall|sent: Seq<W>, q: usize| #[trigger] changed_only_at(sent, received, erasures@.push(q))
                && erasures@.len() + 2 <= ecc
                && block_ok(sent, fp.w())
                && is_codeword(words(sent), ecc as nat, fp.g(), fp.m())
                implies r is Ok && words(codeword@) == words(sent) by {
                assert(erasures@ + seq![q] =~= erasures@.push(q));
                assert(changed_only_at(sent, received, erasures@ + seq![q]));
            }
        }
        if rs_field_facts(fp.g(), fp.m(), fp.w(), received.len()) {
            assert forall|sent: Seq<W>, errs: Seq<usize>| #[trigger] changed_only_at(sent, received, erasures@ + errs)
                && 2 * errs.len() + erasures@.len() <= ecc
                && block_ok(sent, fp.w())
                && is_codeword(words(sent), ecc as nat, fp.g(), fp.m())
                && exactly_changed(sent, received, erasures@ + errs)
                implies (r matches Ok(n) && n == erasures@.len() + errs.len()) by {
                let all = erasures@ + errs;
                let k = erasures@.len();
                assert forall|a: int, b: int| 0 <= a < b < erasures@.len() implies erasures@[a] != erasures@[b] by {
                    assert(all[a] == erasures@[a]);
                    assert(all[b] == erasures@[b]);
                }
                assert(exactly_changed(sent, received, errs)) by {
                    assert forall|a: int, b: int| 0 <= a < errs.len() && 0 <= b < errs.len() && a != b
                        implies errs[a] != errs[b] by {
                        assert(all[k + a] == errs[a]);
                        assert(all[k + b] == errs[b]);
                    }
                    assert forall|t: int| 0 <= t < errs.len() implies #[trigger] errs[t] < received.len()
                        && words(sent)[errs[t] as int] != words(received)[errs[t] as int] by {
                        assert(all[k + t] == errs[t]);
                    }
                }
                assert forall|t: int| 0 <= t < errs.len() implies !erasures@.contains(#[trigger] errs[t]) by {
                    if erasures@.contains(errs[t]) {
                        let u = choose|u: int| 0 <= u < erasures@.len() && erasures@[u] == errs[t];
                        assert(all[u] == erasures@[u]);
                        assert(all[k + t] == errs[t]);
                    }
                }
            }
        }
    }
    r
}

/// A repair that yields a codeword and that, counting the damage with it,
/// changed the sent codeword only at listed positions, at most `ecc`
/// of them listed, gives the sent codeword back.
pub proof fn lemma_repair_restores<W: Word>(
    sent: Seq<W>,
    repaired: Seq<W>,
    locs: Seq<usize>,
    ecc: nat,
    g: nat,
    m: nat,
    w: nat,
)
    requires
        rs_field_facts(g, m, w, sent.len()),
        sent.len() <= usize::MAX,
        repaired.len() == sent.len(),
        block_ok(sent, w),
        block_ok(repaired, w),
        is_codeword(words(sent), ecc, g, m),
        is_codeword(words(repaired), ecc, g, m),
        locs.len() <= ecc,
        forall|j: int| 0 <= j < sent.len() && repaired[j] != sent[j] ==> locs.contains(j as usize),
    ensures
        words(repaired) == words(sent),
{
    let c = words(sent);
    let d = words(repaired);
    assert forall|j: int| 0 <= j < c.len() && c[j] != d[j] implies locs.contains(j as usize) by {}
    lemma_codewords_apart(c, d, locs, ecc, g, m, w);
}

/// Two changes, each only at listed positions, change only at positions
/// listed in one of the two lists.
pub proof fn lemma_changes_compose<W>(a: Seq<W>, b: Seq<W>, c: Seq<W>, first: Seq<usize>, second: Seq<usize>)
    requires
        changed_only_at(a, b, first),
        changed_only_at(b, c, second),
    ensures
        changed_only_at(a, c, first + second),
{
    let both = first + second;
    assert forall|i: int| 0 <= i < a.len() && !both.contains(i as usize) implies #[trigger] c[i] == a[i] by {
        if first.contains(i as usize) {
            let t = choose|t: int| 0 <= t < first.len() && first[t] == i as usize;
            assert(both[t] == i as usize);
        }
        if second.contains(i as usize) {
            let t = choose|t: int| 0 <= t < second.len() && second[t] == i as usize;
            assert(both[first.len() + t] == i as usize);
        }
    }
}

/// The field `GF(2^8)` defined by `0x11d` with generator `2` has what the
/// decoder's proofs need for codewords of up to 255 words.
pub proof fn lemma_gf256_rs_facts(n: nat)
    requires
        n <= 255,
    ensures
        rs_field_facts(2, 0x11d, 8, n),
{
    assert(bitlen(0x11d) == 9) by {
        reveal_with_fuel(bitlen, 11);
    }
    assert(exp2(8) == 0x100) by {
        reveal_with_fuel(exp2, 10);
    }
    assert forall|b: nat| 0 < b < exp2(8) implies #[trigger] powmod(b, (exp2(8) - 1) as nat, 0x11d) == 1 by {
        crate::groups::lemma_gf256_order(b);
    }
    assert forall|x: nat, y: nat| x < n && y < n && x != y implies #[trigger] powmod(2, x, 0x11d) != #[trigger] powmod(2, y, 0x11d) by {
        crate::groups::lemma_gf256_powers(x, y);
    }
    assert forall|x: nat| x < n implies #[trigger] powmod(2, x, 0x11d) != 0 by {
        crate::groups::lemma_gf256_powers(x, x);
    }
}

/// The field `GF(2^4)` defined by `0x13` with generator `2` has what the
/// decoder's proofs need for codewords of up to 15 words.
pub proof fn lemma_gf16_rs_facts(n: nat)
    requires
        n <= 15,
    ensures
        rs_field_facts(2, 0x13, 4, n),
{
    assert(bitlen(0x13) == 5) by {
        reveal_with_fuel(bitlen, 7);
    }
    assert(exp2(4) == 0x10) by {
        reveal_with_fuel(exp2, 6);
    }
    assert forall|b: nat| 0 < b < exp2(4) implies #[trigger] powmod(b, (exp2(4) - 1) as nat, 0x13) == 1 by {
        crate::groups::lemma_gf16_order(b);
    }
    assert forall|x: nat, y: nat| x < n && y < n && x != y implies #[trigger] powmod(2, x, 0x13) != #[trigger] powmod(2, y, 0x13) by {
        crate::groups::lemma_gf16_powers(x, y);
    }
    assert forall|x: nat| x < n implies #[trigger] powmod(2, x, 0x13) != 0 by {
        crate::groups::lemma_gf16_powers(x, x);
    }
}

/// The field `GF(2^23)` defined by `0x800021` with generator `2` has what
/// the decoder's proofs need for codewords of up to `2^23 - 1` words.
pub proof fn lemma_gf2p23_rs_facts(n: nat)
    requires
        n <= 0x7fffff,
    ensures
        rs_field_facts(2, 0x800021, 23, n),
{
    crate::order::lemma_gf2p23_sizes();
    crate::order::lemma_gf2p23_field();
}

/// The field `GF(2^64)` defined by `0x1000000000000001b` with generator `2`
/// has what the decoder's proofs need for codewords of up to `2^64 - 1`
/// words.
pub proof fn lemma_gf2p64_rs_facts(n: nat)
    requires
        n <= 0xffffffffffffffff,
    ensures
        rs_field_facts(2, 0x1000000000000001b, 64, n),
{
    crate::order::lemma_gf2p64_sizes();
    crate::order::lemma_gf2p64_field();
}

} // verus!
