//! Two codewords that differ in at most `ecc` positions are equal: the
//! code's minimum distance is `ecc + 1`. So a repair that yields a
//! codeword and stays within `ecc` positions of the codeword that was
//! sent, counting the damage and the repair together, gives that codeword
//! back.
//!
//! The proof: if the difference `e` of two such codewords had a non-zero
//! word at position `j0`, the polynomial `B(x)`, the product of `x + X_t`
//! over the other listed positions `t` (with `X_t` the point of position
//! `t`), has fewer than `ecc + 1` coefficients `B_i`, so
//! `sum_i B_i * S_i(e) = 0` since those syndromes are zero; but that sum
//! is also `sum_j e_j * B(X_j) = e_j0 * B(X_j0)`, which is not zero.

use vstd::prelude::*;
use crate::poly::{
    exp2, bitlen, pxor, pmod, mulmod, powmod, lemma_exp2_pos, lemma_pxor_zero, lemma_pxor_comm,
    lemma_pxor_swap, lemma_pxor_self, lemma_pxor_assoc, lemma_pxor_bound, lemma_pxor_eq_zero,
    lemma_pmod_small, lemma_mulmod_comm, lemma_mulmod_assoc, lemma_mulmod_distrib, lemma_mulmod_one,
    lemma_powmod_reduced, lemma_bitlen_le, lemma_bitlen_gt,
};
use crate::raid::algebra::{field_inverts, modulus_ok, lemma_no_zero_divisors, lemma_mul_one, lemma_distrib_left};
use crate::shamir::peval;
use crate::shamir::algebra::{
    fits, mul_lin, lemma_peval_mul_lin, lemma_m_pos, lemma_mulmod_zero, lemma_mulmod_fits,
};
use crate::rs::{beval, syndrome, changed_only_at};
use crate::rs::algebra::{seq_xor, lemma_beval_xor};

verus! {

/// The powers `g^e` with `e < n` are non-zero and pairwise distinct.
pub open spec fn distinct_powers(g: nat, m: nat, n: nat) -> bool {
    &&& forall|x: nat| x < n ==> #[trigger] powmod(g, x, m) != 0
    &&& forall|x: nat, y: nat| x < n && y < n && x != y ==> #[trigger] powmod(g, x, m) != #[trigger] powmod(g, y, m)
}

/// What the decoder's proofs need of the field and its generator for
/// codewords of `n` words: every non-zero element is invertible, and the
/// points of the `n` positions are distinct.
pub open spec fn rs_field_facts(g: nat, m: nat, w: nat, n: nat) -> bool {
    &&& modulus_ok(m, w)
    &&& field_inverts(m, w)
    &&& distinct_powers(g, m, n)
}

/// The point of position `j` in a codeword of `n` words: `g^(n - 1 - j)`.
pub open spec fn point(n: nat, j: int, g: nat, m: nat) -> nat {
    powmod(g, (n - 1 - j) as nat, m)
}

/// Word `j` of `e` times `X_j^k * b(X_j)`.
pub open spec fn term(e: Seq<nat>, j: int, k: nat, b: Seq<nat>, g: nat, m: nat) -> nat {
    let x = point(e.len(), j, g, m);
    mulmod(e[j], mulmod(powmod(x, k, m), peval(b, x, m), m), m)
}

/// `sum_j e_j * X_j^k * b(X_j)`.
pub open spec fn zsum(e: Seq<nat>, k: nat, b: Seq<nat>, g: nat, m: nat) -> nat
    decreases e.len(),
{
    if e.len() == 0 {
        0
    } else {
        pxor(term(e, 0, k, b, g, m), zsum(e.subrange(1, e.len() as int), k, b, g, m))
    }
}

/// `sum_i b_i * S_(k+i)(e)`.
pub open spec fn tsum(b: Seq<nat>, k: nat, e: Seq<nat>, g: nat, m: nat) -> nat
    decreases b.len(),
{
    if b.len() == 0 {
        0
    } else {
        pxor(mulmod(b[0], syndrome(e, k, g, m), m), tsum(b.subrange(1, b.len() as int), k + 1, e, g, m))
    }
}

/// The product of `x + X_t` over the first `n` listed positions `t` below
/// `len` other than `j0`, as a polynomial, lowest coefficient first.
pub open spec fn excl_basis(locs: Seq<usize>, j0: int, n: int, len: nat, g: nat, m: nat) -> Seq<nat>
    decreases n,
{
    if n <= 0 {
        seq![1nat]
    } else if locs[n - 1] == j0 || locs[n - 1] >= len {
        excl_basis(locs, j0, n - 1, len, g, m)
    } else {
        mul_lin(excl_basis(locs, j0, n - 1, len, g, m), point(len, locs[n - 1] as int, g, m), m)
    }
}

/// The same product, as a value at `x`.
pub open spec fn excl_basis_at(locs: Seq<usize>, j0: int, n: int, len: nat, x: nat, g: nat, m: nat) -> nat
    decreases n,
{
    if n <= 0 {
        1
    } else if locs[n - 1] == j0 || locs[n - 1] >= len {
        excl_basis_at(locs, j0, n - 1, len, x, g, m)
    } else {
        mulmod(excl_basis_at(locs, j0, n - 1, len, x, g, m), pxor(x, point(len, locs[n - 1] as int, g, m)), m)
    }
}

proof fn lemma_one_fits(m: nat, w: nat)
    requires
        modulus_ok(m, w),
    ensures
        pmod(1, m) == 1,
        1 < exp2(w),
{
    crate::poly::lemma_exp2_mono(1, w);
    assert(exp2(1) == 2 * exp2(0));
    lemma_bitlen_le(1, w);
    lemma_pmod_small(1, m);
}

pub proof fn lemma_powmod_fits(a: nat, e: nat, m: nat, w: nat)
    requires
        modulus_ok(m, w),
    ensures
        powmod(a, e, m) < exp2(w),
{
    lemma_m_pos(m, w);
    lemma_powmod_reduced(a, e, m);
    if powmod(a, e, m) >= exp2(w) {
        lemma_bitlen_gt(powmod(a, e, m), w);
    }
}

/// The constant polynomial `1` has the value `1`.
pub proof fn lemma_peval_one(x: nat, m: nat)
    requires
        m > 0,
    ensures
        peval(seq![1nat], x, m) == 1,
{
    let s = seq![1nat];
    assert(s.subrange(1, 1) =~= Seq::<nat>::empty());
    assert(peval(s.subrange(1, 1), x, m) == 0);
    lemma_mulmod_zero(x, m);
    lemma_pxor_zero(1);
}

/// Dropping the first word keeps the other words' terms.
proof fn lemma_term_tail(e: Seq<nat>, j: int, k: nat, b: Seq<nat>, g: nat, m: nat)
    requires
        0 <= j,
        j + 1 < e.len(),
    ensures
        term(e.subrange(1, e.len() as int), j, k, b, g, m) == term(e, j + 1, k, b, g, m),
{
    let t = e.subrange(1, e.len() as int);
    assert((t.len() - 1 - j) as nat == (e.len() - 1 - (j + 1)) as nat);
}

/// With the empty polynomial, every term is zero.
proof fn lemma_zsum_empty(e: Seq<nat>, k: nat, g: nat, m: nat)
    requires
        m > 0,
    ensures
        zsum(e, k, Seq::<nat>::empty(), g, m) == 0,
    decreases e.len(),
{
    if e.len() > 0 {
        let x = point(e.len(), 0, g, m);
        lemma_mulmod_zero(powmod(x, k, m), m);
        lemma_mulmod_zero(e[0], m);
        lemma_zsum_empty(e.subrange(1, e.len() as int), k, g, m);
        lemma_pxor_zero(0);
    }
}

/// One term, split along `b = b_0 + x * b'`.
#[verifier::rlimit(40)]
proof fn lemma_term_split(e: Seq<nat>, k: nat, b: Seq<nat>, g: nat, m: nat, w: nat)
    requires
        modulus_ok(m, w),
        e.len() >= 1,
        b.len() >= 1,
    ensures
        term(e, 0, k, b, g, m) == pxor(
            mulmod(b[0], term(e, 0, k, seq![1nat], g, m), m),
            term(e, 0, k + 1, b.subrange(1, b.len() as int), g, m),
        ),
{
    lemma_m_pos(m, w);
    let x = point(e.len(), 0, g, m);
    let e0 = e[0];
    let b0 = b[0];
    let p1 = peval(b.subrange(1, b.len() as int), x, m);
    let xk = powmod(x, k, m);
    // b(x) = p1 * x + b0
    assert(peval(b, x, m) == pxor(mulmod(p1, x, m), b0));
    // e0 * (xk * (p1 x + b0)) = e0 * (xk * (p1 x)) + e0 * (xk * b0)
    lemma_mulmod_distrib(xk, mulmod(p1, x, m), b0, m);
    lemma_mulmod_distrib(e0, mulmod(xk, mulmod(p1, x, m), m), mulmod(xk, b0, m), m);
    // xk * (p1 * x) == x^(k+1) * p1
    assert(powmod(x, k + 1, m) == mulmod(x, xk, m));
    lemma_mulmod_assoc(xk, p1, x, m);
    lemma_mulmod_comm(mulmod(xk, p1, m), x, m);
    lemma_mulmod_assoc(x, xk, p1, m);
    lemma_mulmod_comm(xk, p1, m);
    lemma_mulmod_assoc(xk, p1, x, m);
    lemma_mulmod_assoc(x, xk, p1, m);
    assert(mulmod(xk, mulmod(p1, x, m), m) == mulmod(powmod(x, k + 1, m), p1, m)) by {
        lemma_mulmod_assoc(xk, p1, x, m);
        lemma_mulmod_comm(mulmod(xk, p1, m), x, m);
        lemma_mulmod_assoc(x, xk, p1, m);
    }
    // the term of the constant 1: e0 * xk
    lemma_peval_one(x, m);
    lemma_mulmod_one(xk, m);
    lemma_powmod_reduced(x, k, m);
    // b0 * (e0 * xk) == e0 * (xk * b0)
    lemma_mulmod_assoc(e0, xk, b0, m);
    lemma_mulmod_comm(mulmod(e0, xk, m), b0, m);
    lemma_pxor_comm(mulmod(e0, mulmod(xk, mulmod(p1, x, m), m), m), mulmod(e0, mulmod(xk, b0, m), m));
}

/// The sum splits along `b = b_0 + x * b'`.
#[verifier::rlimit(40)]
proof fn lemma_zsum_split(e: Seq<nat>, k: nat, b: Seq<nat>, g: nat, m: nat, w: nat)
    requires
        modulus_ok(m, w),
        b.len() >= 1,
    ensures
        zsum(e, k, b, g, m) == pxor(
            mulmod(b[0], zsum(e, k, seq![1nat], g, m), m),
            zsum(e, k + 1, b.subrange(1, b.len() as int), g, m),
        ),
    decreases e.len(),
{
    lemma_m_pos(m, w);
    let b1 = b.subrange(1, b.len() as int);
    if e.len() == 0 {
        lemma_mulmod_zero(b[0], m);
        lemma_pxor_zero(0);
    } else {
        let t = e.subrange(1, e.len() as int);
        lemma_zsum_split(t, k, b, g, m, w);
        lemma_term_split(e, k, b, g, m, w);
        let t1 = term(e, 0, k, seq![1nat], g, m);
        let t2 = term(e, 0, k + 1, b1, g, m);
        let z1 = zsum(t, k, seq![1nat], g, m);
        let z2 = zsum(t, k + 1, b1, g, m);
        lemma_mulmod_distrib(b[0], t1, z1, m);
        lemma_pxor_swap(mulmod(b[0], t1, m), t2, mulmod(b[0], z1, m), z2);
    }
}

/// Word 0 of `e` stands for `e_0 * x^(n - 1)`.
#[verifier::rlimit(40)]
pub proof fn lemma_beval_first(e: Seq<nat>, x: nat, m: nat, w: nat)
    requires
        modulus_ok(m, w),
        e.len() >= 1,
        e[0] < exp2(w),
    ensures
        beval(e, x, m) == pxor(mulmod(e[0], powmod(x, (e.len() - 1) as nat, m), m), beval(e.subrange(1, e.len() as int), x, m)),
    decreases e.len(),
{
    lemma_m_pos(m, w);
    let n = e.len();
    if n == 1 {
        let t = e.subrange(1, 1);
        assert(t =~= Seq::<nat>::empty());
        assert(e.drop_last() =~= Seq::<nat>::empty());
        assert(beval(e.drop_last(), x, m) == 0);
        lemma_mulmod_zero(x, m);
        lemma_pxor_zero(e[0]);
        lemma_mulmod_one(e[0], m);
        lemma_bitlen_le(e[0], w);
        lemma_pmod_small(e[0], m);
        lemma_pxor_zero(mulmod(e[0], powmod(x, 0, m), m));
    } else {
        let d = e.drop_last();
        lemma_beval_first(d, x, m, w);
        let td = d.subrange(1, d.len() as int);
        let te = e.subrange(1, n as int);
        assert(te.drop_last() =~= td);
        assert(te.last() == e.last());
        let a = mulmod(e[0], powmod(x, (n - 2) as nat, m), m);
        let bb = beval(td, x, m);
        lemma_distrib_left(a, bb, x, m);
        // a * x == e0 * x^(n-1)
        lemma_mulmod_assoc(e[0], powmod(x, (n - 2) as nat, m), x, m);
        lemma_mulmod_comm(powmod(x, (n - 2) as nat, m), x, m);
        assert(powmod(x, (n - 1) as nat, m) == mulmod(x, powmod(x, (n - 2) as nat, m), m));
        lemma_pxor_assoc(mulmod(a, x, m), mulmod(bb, x, m), e.last());
    }
}

/// With the constant `1`, the sum is syndrome `k`.
pub proof fn lemma_zsum_syndrome(e: Seq<nat>, k: nat, g: nat, m: nat, w: nat)
    requires
        modulus_ok(m, w),
        fits(e, w),
    ensures
        zsum(e, k, seq![1nat], g, m) == syndrome(e, k, g, m),
    decreases e.len(),
{
    lemma_m_pos(m, w);
    if e.len() > 0 {
        let n = e.len();
        let t = e.subrange(1, n as int);
        lemma_zsum_syndrome(t, k, g, m, w);
        let x = point(n, 0, g, m);
        let gk = powmod(g, k, m);
        lemma_peval_one(x, m);
        lemma_mulmod_one(powmod(x, k, m), m);
        lemma_powmod_reduced(x, k, m);
        // (g^(n-1))^k == (g^k)^(n-1)
        crate::field::lemma_powmod_pow(g, (n - 1) as nat, k, m);
        crate::field::lemma_powmod_pow(g, k, (n - 1) as nat, m);
        assert((n - 1) as nat * k == k * (n - 1) as nat) by (nonlinear_arith);
        lemma_beval_first(e, gk, m, w);
    }
}

/// The two sums agree.
pub proof fn lemma_tsum_zsum(b: Seq<nat>, k: nat, e: Seq<nat>, g: nat, m: nat, w: nat)
    requires
        modulus_ok(m, w),
        fits(e, w),
    ensures
        tsum(b, k, e, g, m) == zsum(e, k, b, g, m),
    decreases b.len(),
{
    lemma_m_pos(m, w);
    if b.len() == 0 {
        assert(b =~= Seq::<nat>::empty());
        lemma_zsum_empty(e, k, g, m);
    } else {
        lemma_tsum_zsum(b.subrange(1, b.len() as int), k + 1, e, g, m, w);
        lemma_zsum_syndrome(e, k, g, m, w);
        lemma_zsum_split(e, k, b, g, m, w);
    }
}

/// With zero syndromes, the first sum is zero.
proof fn lemma_tsum_zero(b: Seq<nat>, k: nat, e: Seq<nat>, g: nat, m: nat)
    requires
        m > 0,
        forall|i: nat| k <= i < k + b.len() ==> #[trigger] syndrome(e, i, g, m) == 0,
    ensures
        tsum(b, k, e, g, m) == 0,
    decreases b.len(),
{
    if b.len() > 0 {
        lemma_tsum_zero(b.subrange(1, b.len() as int), k + 1, e, g, m);
        assert(syndrome(e, k, g, m) == 0);
        lemma_mulmod_zero(b[0], m);
        lemma_pxor_zero(0);
    }
}

/// When every term but the one at `p` is zero, the sum is that term.
pub proof fn lemma_zsum_single(e: Seq<nat>, k: nat, b: Seq<nat>, p: int, g: nat, m: nat)
    requires
        forall|j: int| 0 <= j < e.len() && j != p ==> #[trigger] term(e, j, k, b, g, m) == 0,
    ensures
        zsum(e, k, b, g, m) == (if 0 <= p < e.len() { term(e, p, k, b, g, m) } else { 0 }),
    decreases e.len(),
{
    if e.len() > 0 {
        let t = e.subrange(1, e.len() as int);
        assert forall|j: int| 0 <= j < t.len() && j != p - 1 implies #[trigger] term(t, j, k, b, g, m) == 0 by {
            lemma_term_tail(e, j, k, b, g, m);
            assert(term(e, j + 1, k, b, g, m) == 0);
        }
        lemma_zsum_single(t, k, b, p - 1, g, m);
        if 1 <= p < e.len() {
            lemma_term_tail(e, p - 1, k, b, g, m);
            assert(term(e, 0, k, b, g, m) == 0);
            lemma_pxor_zero(term(e, p, k, b, g, m));
        } else if p == 0 {
            lemma_pxor_zero(term(e, 0, k, b, g, m));
        } else {
            assert(term(e, 0, k, b, g, m) == 0);
            lemma_pxor_zero(0);
        }
    }
}

/// The excluding product: its value, and how many coefficients it has.
proof fn lemma_excl_basis(locs: Seq<usize>, j0: int, n: int, len: nat, x: nat, g: nat, m: nat)
    requires
        m > 0,
        0 <= n <= locs.len(),
    ensures
        peval(excl_basis(locs, j0, n, len, g, m), x, m) == excl_basis_at(locs, j0, n, len, x, g, m),
        excl_basis(locs, j0, n, len, g, m).len() <= n + 1,
        (exists|t: int| 0 <= t < n && locs[t] == j0) ==> excl_basis(locs, j0, n, len, g, m).len() <= n,
    decreases n,
{
    if n <= 0 {
        lemma_peval_one(x, m);
    } else {
        lemma_excl_basis(locs, j0, n - 1, len, x, g, m);
        if !(locs[n - 1] == j0 || locs[n - 1] >= len) {
            lemma_peval_mul_lin(excl_basis(locs, j0, n - 1, len, g, m), point(len, locs[n - 1] as int, g, m), x, m);
        }
        if exists|t: int| 0 <= t < n && locs[t] == j0 {
            let t = choose|t: int| 0 <= t < n && locs[t] == j0;
            if t < n - 1 {
                assert(exists|t2: int| 0 <= t2 < n - 1 && locs[t2] == j0);
            }
        }
    }
}

/// The excluding product is zero at the point of another listed position.
proof fn lemma_excl_basis_other(locs: Seq<usize>, j0: int, n: int, len: nat, j: int, g: nat, m: nat)
    requires
        m > 0,
        0 <= n <= locs.len(),
        0 <= j < len,
        j != j0,
        exists|t: int| 0 <= t < n && locs[t] == j,
    ensures
        excl_basis_at(locs, j0, n, len, point(len, j, g, m), g, m) == 0,
    decreases n,
{
    let x = point(len, j, g, m);
    if locs[n - 1] == j {
        lemma_pxor_self(x);
        lemma_mulmod_zero(excl_basis_at(locs, j0, n - 1, len, x, g, m), m);
    } else {
        let t = choose|t: int| 0 <= t < n && locs[t] == j;
        assert(exists|t2: int| 0 <= t2 < n - 1 && locs[t2] == j);
        lemma_excl_basis_other(locs, j0, n - 1, len, j, g, m);
        if !(locs[n - 1] == j0 || locs[n - 1] >= len) {
            lemma_mulmod_zero(pxor(x, point(len, locs[n - 1] as int, g, m)), m);
        }
    }
}

/// The excluding product is a non-zero field element at the point of `j0`.
proof fn lemma_excl_basis_own(locs: Seq<usize>, j0: int, n: int, len: nat, g: nat, m: nat, w: nat)
    requires
        rs_field_facts(g, m, w, len),
        0 <= n <= locs.len(),
        0 <= j0 < len,
    ensures
        0 < excl_basis_at(locs, j0, n, len, point(len, j0, g, m), g, m) < exp2(w),
    decreases n,
{
    lemma_m_pos(m, w);
    lemma_one_fits(m, w);
    let x = point(len, j0, g, m);
    if n > 0 {
        lemma_excl_basis_own(locs, j0, n - 1, len, g, m, w);
        if !(locs[n - 1] == j0 || locs[n - 1] >= len) {
            let y = point(len, locs[n - 1] as int, g, m);
            let ex = (len - 1 - j0) as nat;
            let ey = (len - 1 - locs[n - 1]) as nat;
            assert(powmod(g, ex, m) != powmod(g, ey, m));
            lemma_powmod_fits(g, ex, m, w);
            lemma_powmod_fits(g, ey, m, w);
            lemma_pxor_bound(x, y, w);
            if pxor(x, y) == 0 {
                lemma_pxor_eq_zero(x, y);
            }
            let prev = excl_basis_at(locs, j0, n - 1, len, x, g, m);
            lemma_no_zero_divisors(prev, pxor(x, y), m, w);
            lemma_mulmod_fits(prev, pxor(x, y), m, w);
        }
    }
}

/// A word whose syndromes below `ecc` are zero and whose non-zero entries
/// all stand at listed positions, with at most `ecc` of them listed, is
/// zero.
#[verifier::rlimit(40)]
pub proof fn lemma_small_codeword_zero(e: Seq<nat>, locs: Seq<usize>, ecc: nat, g: nat, m: nat, w: nat)
    requires
        rs_field_facts(g, m, w, e.len()),
        e.len() <= usize::MAX,
        fits(e, w),
        forall|i: nat| i < ecc ==> #[trigger] syndrome(e, i, g, m) == 0,
        locs.len() <= ecc,
        forall|j: int| 0 <= j < e.len() && e[j] != 0 ==> locs.contains(j as usize),
    ensures
        forall|j: int| 0 <= j < e.len() ==> #[trigger] e[j] == 0,
{
    lemma_m_pos(m, w);
    lemma_one_fits(m, w);
    let len = e.len();
    assert forall|j0: int| 0 <= j0 < len implies #[trigger] e[j0] == 0 by {
        if e[j0] != 0 {
            assert(locs.contains(j0 as usize));
            let t0 = choose|t: int| 0 <= t < locs.len() && locs[t] == j0 as usize;
            let n = locs.len() as int;
            let b = excl_basis(locs, j0, n, len, g, m);
            let x0 = point(len, j0, g, m);
            lemma_excl_basis(locs, j0, n, len, x0, g, m);
            assert(locs[t0] == j0);
            assert(exists|t: int| 0 <= t < n && locs[t] == j0);
            // sum_i b_i S_i(e) is zero
            lemma_tsum_zero(b, 0, e, g, m);
            lemma_tsum_zsum(b, 0, e, g, m, w);
            // ... and is e_j0 * b(X_j0)
            assert forall|j: int| 0 <= j < len && j != j0 implies #[trigger] term(e, j, 0, b, g, m) == 0 by {
                let x = point(len, j, g, m);
                if e[j] == 0 {
                    lemma_mulmod_zero(mulmod(powmod(x, 0, m), peval(b, x, m), m), m);
                } else {
                    assert(locs.contains(j as usize));
                    let t = choose|t: int| 0 <= t < locs.len() && locs[t] == j as usize;
                    assert(locs[t] == j);
                    assert(exists|t2: int| 0 <= t2 < n && locs[t2] == j);
                    lemma_excl_basis(locs, j0, n, len, x, g, m);
                    lemma_excl_basis_other(locs, j0, n, len, j, g, m);
                    lemma_mulmod_zero(powmod(x, 0, m), m);
                    lemma_mulmod_zero(e[j], m);
                }
            }
            lemma_zsum_single(e, 0, b, j0, g, m);
            lemma_excl_basis_own(locs, j0, n, len, g, m, w);
            let bv = peval(b, x0, m);
            lemma_mul_one(bv, m, w);
            assert(powmod(x0, 0, m) == 1);
            lemma_no_zero_divisors(e[j0], bv, m, w);
        }
    }
}

/// Two codewords of the same length that differ only at listed positions,
/// with at most `ecc` of them listed, are equal.
pub proof fn lemma_codewords_apart(c: Seq<nat>, d: Seq<nat>, locs: Seq<usize>, ecc: nat, g: nat, m: nat, w: nat)
    requires
        rs_field_facts(g, m, w, c.len()),
        c.len() <= usize::MAX,
        fits(c, w),
        fits(d, w),
        c.len() == d.len(),
        forall|i: nat| i < ecc ==> #[trigger] syndrome(c, i, g, m) == 0,
        forall|i: nat| i < ecc ==> #[trigger] syndrome(d, i, g, m) == 0,
        locs.len() <= ecc,
        forall|j: int| 0 <= j < c.len() && c[j] != d[j] ==> locs.contains(j as usize),
    ensures
        c == d,
{
    lemma_m_pos(m, w);
    let e = seq_xor(c, d);
    assert forall|i: nat| i < ecc implies #[trigger] syndrome(e, i, g, m) == 0 by {
        lemma_beval_xor(c, d, powmod(g, i, m), m);
        assert(syndrome(c, i, g, m) == 0);
        assert(syndrome(d, i, g, m) == 0);
        lemma_pxor_zero(0);
    }
    assert forall|j: int| 0 <= j < e.len() implies #[trigger] e[j] < exp2(w) by {
        lemma_pxor_bound(c[j], d[j], w);
    }
    assert forall|j: int| 0 <= j < e.len() && e[j] != 0 implies locs.contains(j as usize) by {
        if c[j] == d[j] {
            lemma_pxor_self(c[j]);
        }
    }
    lemma_small_codeword_zero(e, locs, ecc, g, m, w);
    assert forall|j: int| 0 <= j < c.len() implies c[j] == d[j] by {
        assert(e[j] == 0);
        lemma_pxor_eq_zero(c[j], d[j]);
    }
    assert(c =~= d);
}

/// Below the field's width, the powers of `x` are not reduced: `2^e` is
/// the number `2^e` itself.
pub proof fn lemma_small_powers_of_two(m: nat, w: nat, e: nat)
    requires
        bitlen(m) == w + 1,
        e < w,
    ensures
        powmod(2, e, m) == exp2(e),
    decreases e,
{
    lemma_exp2_pos(e);
    crate::poly::lemma_exp2_strict_mono(e, e + 1);
    assert(exp2(e + 1) == 2 * exp2(e));
    crate::poly::lemma_bitlen_exact(exp2(e), e + 1);
    lemma_pmod_small(exp2(e), m);
    if e > 0 {
        lemma_small_powers_of_two(m, w, (e - 1) as nat);
        crate::poly::lemma_pmul_exp2(2, (e - 1) as nat);
        assert(exp2(e) == 2 * exp2((e - 1) as nat));
    }
}

/// Below the field's width, the powers of `x` are distinct.
pub proof fn lemma_small_powers_distinct(m: nat, w: nat, n: nat)
    requires
        bitlen(m) == w + 1,
        n <= w,
    ensures
        distinct_powers(2, m, n),
{
    assert forall|x: nat| x < n implies #[trigger] powmod(2, x, m) != 0 by {
        lemma_small_powers_of_two(m, w, x);
        lemma_exp2_pos(x);
    }
    assert forall|x: nat, y: nat| x < n && y < n && x != y implies #[trigger] powmod(2, x, m) != #[trigger] powmod(2, y, m) by {
        lemma_small_powers_of_two(m, w, x);
        lemma_small_powers_of_two(m, w, y);
        if x < y {
            crate::poly::lemma_exp2_strict_mono(x, y);
        } else {
            crate::poly::lemma_exp2_strict_mono(y, x);
        }
    }
}

} // verus!
