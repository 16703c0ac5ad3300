//! The mathematical model of binary polynomials.
//!
//! A binary polynomial is encoded as the natural number whose binary digits
//! are its coefficients: `0b1011` is `x^3 + x + 1`. Addition of polynomials
//! (coefficients modulo 2) is `pxor`, multiplication is `pmul` (the carry-less
//! product), and `pdivmod` is polynomial long division. The lemmas in this
//! module establish the ring laws of these operations and the defining
//! properties of division, on which every other module builds.

use vstd::prelude::*;
use vstd::arithmetic::div_mod::{
    lemma_div_denominator,
    lemma_mod_breakdown,
    lemma_fundamental_div_mod,
    lemma_fundamental_div_mod_converse,
};
use vstd::arithmetic::mul::{
    lemma_mul_inequality,
    lemma_mul_strict_inequality,
    lemma_mul_is_associative,
    lemma_mul_is_commutative,
};

verus! {

// ---------------------------------------------------------------------------
// Powers of two and bit length
// ---------------------------------------------------------------------------

/// Two raised to the power `n`.
pub open spec fn exp2(n: nat) -> nat
    decreases n,
{
    if n == 0 {
        1
    } else {
        2 * exp2((n - 1) as nat)
    }
}

/// The number of binary digits of `a`, that is one more than the degree of
/// the polynomial `a` (and zero for the zero polynomial).
pub open spec fn bitlen(a: nat) -> nat
    decreases a,
{
    if a == 0 {
        0
    } else {
        1 + bitlen(a / 2)
    }
}

pub proof fn lemma_exp2_pos(n: nat)
    ensures
        exp2(n) >= 1,
    decreases n,
{
    if n > 0 {
        lemma_exp2_pos((n - 1) as nat);
    }
}

pub proof fn lemma_exp2_add(a: nat, b: nat)
    ensures
        exp2(a + b) == exp2(a) * exp2(b),
    decreases a,
{
    if a > 0 {
        let a1 = (a - 1) as nat;
        lemma_exp2_add(a1, b);
        assert(exp2(a + b) == 2 * exp2(a1 + b));
        assert(exp2(a) == 2 * exp2(a1));
        lemma_mul_is_associative(2, exp2(a1) as int, exp2(b) as int);
    } else {
        assert(exp2(a) == 1);
    }
}

pub proof fn lemma_exp2_strict_mono(a: nat, b: nat)
    requires
        a < b,
    ensures
        exp2(a) < exp2(b),
    decreases b,
{
    lemma_exp2_pos(a);
    if a < (b - 1) as nat {
        lemma_exp2_strict_mono(a, (b - 1) as nat);
    }
}

pub proof fn lemma_exp2_mono(a: nat, b: nat)
    requires
        a <= b,
    ensures
        exp2(a) <= exp2(b),
{
    if a < b {
        lemma_exp2_strict_mono(a, b);
    }
}

/// A natural number is determined by its lowest binary digit and the rest.
pub proof fn lemma_bits_eq(x: nat, y: nat)
    requires
        x % 2 == y % 2,
        x / 2 == y / 2,
    ensures
        x == y,
{
}

pub proof fn lemma_bitlen_bound(a: nat)
    ensures
        a < exp2(bitlen(a)),
        a > 0 ==> exp2((bitlen(a) - 1) as nat) <= a,
        a > 0 ==> bitlen(a) > 0,
    decreases a,
{
    if a > 0 {
        lemma_bitlen_bound(a / 2);
        if a / 2 > 0 {
            assert(exp2(bitlen(a)) == 2 * exp2(bitlen(a / 2)));
        }
    }
}

pub proof fn lemma_bitlen_le(a: nat, n: nat)
    requires
        a < exp2(n),
    ensures
        bitlen(a) <= n,
    decreases n,
{
    if a > 0 {
        assert(n > 0);
        lemma_bitlen_le(a / 2, (n - 1) as nat);
    }
}

pub proof fn lemma_bitlen_gt(a: nat, n: nat)
    requires
        exp2(n) <= a,
    ensures
        bitlen(a) > n,
    decreases n,
{
    lemma_exp2_pos(n);
    if n > 0 {
        lemma_bitlen_gt(a / 2, (n - 1) as nat);
    }
}

/// `bitlen(a) == n` exactly when `a` has its top digit at position `n - 1`.
pub proof fn lemma_bitlen_exact(a: nat, n: nat)
    requires
        a < exp2(n),
        n > 0 ==> exp2((n - 1) as nat) <= a,
    ensures
        bitlen(a) == n,
{
    lemma_bitlen_le(a, n);
    if n > 0 {
        lemma_bitlen_gt(a, (n - 1) as nat);
    }
}

pub proof fn lemma_bitlen_shift(a: nat, s: nat)
    requires
        a > 0,
    ensures
        bitlen(a * exp2(s)) == bitlen(a) + s,
{
    lemma_bitlen_bound(a);
    let n = bitlen(a);
    lemma_exp2_pos(s);
    lemma_mul_strict_inequality(a as int, exp2(n) as int, exp2(s) as int);
    lemma_exp2_add(n, s);
    lemma_mul_inequality(exp2((n - 1) as nat) as int, a as int, exp2(s) as int);
    lemma_exp2_add((n - 1) as nat, s);
    assert((n - 1) as nat + s == (n + s - 1) as nat);
    lemma_bitlen_exact(a * exp2(s), n + s);
}

// ---------------------------------------------------------------------------
// Addition of binary polynomials
// ---------------------------------------------------------------------------

/// The sum (equivalently the difference) of two binary polynomials: the
/// digit-wise exclusive or of their encodings.
pub open spec fn pxor(a: nat, b: nat) -> nat
    decreases a,
{
    if a == 0 {
        b
    } else if b == 0 {
        a
    } else {
        (a % 2 + b % 2) % 2 + 2 * pxor(a / 2, b / 2)
    }
}

pub proof fn lemma_pxor_unfold(a: nat, b: nat)
    ensures
        pxor(a, b) % 2 == (a % 2 + b % 2) % 2,
        pxor(a, b) / 2 == pxor(a / 2, b / 2),
{
    if a == 0 {
        assert(pxor(0, b / 2) == b / 2);
    } else if b == 0 {
        assert(pxor(a / 2, 0) == a / 2);
    }
}

pub proof fn lemma_pxor_zero(a: nat)
    ensures
        pxor(a, 0) == a,
        pxor(0, a) == a,
{
}

pub proof fn lemma_pxor_comm(a: nat, b: nat)
    ensures
        pxor(a, b) == pxor(b, a),
    decreases a,
{
    if a == 0 {
        lemma_pxor_zero(b);
    } else {
        lemma_pxor_comm(a / 2, b / 2);
        lemma_pxor_unfold(a, b);
        lemma_pxor_unfold(b, a);
        lemma_bits_eq(pxor(a, b), pxor(b, a));
    }
}

pub proof fn lemma_pxor_assoc(a: nat, b: nat, c: nat)
    ensures
        pxor(pxor(a, b), c) == pxor(a, pxor(b, c)),
    decreases a,
{
    if a == 0 {
        lemma_pxor_zero(b);
        lemma_pxor_zero(pxor(b, c));
    } else {
        lemma_pxor_assoc(a / 2, b / 2, c / 2);
        lemma_pxor_unfold(a, b);
        lemma_pxor_unfold(pxor(a, b), c);
        lemma_pxor_unfold(b, c);
        lemma_pxor_unfold(a, pxor(b, c));
        assert(a % 2 == 0 || a % 2 == 1);
        assert(b % 2 == 0 || b % 2 == 1);
        assert(c % 2 == 0 || c % 2 == 1);
        lemma_bits_eq(pxor(pxor(a, b), c), pxor(a, pxor(b, c)));
    }
}

pub proof fn lemma_pxor_self(a: nat)
    ensures
        pxor(a, a) == 0,
    decreases a,
{
    if a > 0 {
        lemma_pxor_self(a / 2);
        lemma_pxor_unfold(a, a);
        lemma_bits_eq(pxor(a, a), 0);
    }
}

/// Adding the same polynomial twice cancels it.
pub proof fn lemma_pxor_cancel(a: nat, b: nat)
    ensures
        pxor(pxor(a, b), b) == a,
        pxor(b, pxor(b, a)) == a,
{
    lemma_pxor_assoc(a, b, b);
    lemma_pxor_self(b);
    lemma_pxor_zero(a);
    lemma_pxor_assoc(b, b, a);
}

/// Only equal polynomials have a zero sum.
pub proof fn lemma_pxor_eq_zero(a: nat, b: nat)
    requires
        pxor(a, b) == 0,
    ensures
        a == b,
{
    lemma_pxor_cancel(a, b);
    lemma_pxor_zero(b);
}

/// Regrouping of four summands.
pub proof fn lemma_pxor_swap(a: nat, b: nat, c: nat, d: nat)
    ensures
        pxor(pxor(a, b), pxor(c, d)) == pxor(pxor(a, c), pxor(b, d)),
{
    lemma_pxor_assoc(a, b, pxor(c, d));
    lemma_pxor_assoc(b, c, d);
    lemma_pxor_comm(b, c);
    lemma_pxor_assoc(c, b, d);
    lemma_pxor_assoc(a, c, pxor(b, d));
}

/// The sum of two polynomials given by their lowest digit and the rest.
pub proof fn lemma_pxor_digit(a: nat, x: nat, b: nat, y: nat)
    requires
        x < 2,
        y < 2,
    ensures
        pxor(2 * a + x, 2 * b + y) == 2 * pxor(a, b) + (x + y) % 2,
{
    lemma_pxor_unfold(2 * a + x, 2 * b + y);
    lemma_bits_eq(pxor(2 * a + x, 2 * b + y), 2 * pxor(a, b) + (x + y) % 2);
}

pub proof fn lemma_pxor_bound(a: nat, b: nat, n: nat)
    requires
        a < exp2(n),
        b < exp2(n),
    ensures
        pxor(a, b) < exp2(n),
    decreases n,
{
    if n == 0 {
        lemma_pxor_zero(0);
    } else {
        lemma_pxor_bound(a / 2, b / 2, (n - 1) as nat);
        lemma_pxor_unfold(a, b);
    }
}

pub proof fn lemma_pxor_div_exp2(a: nat, b: nat, k: nat)
    ensures
        pxor(a, b) / exp2(k) == pxor(a / exp2(k), b / exp2(k)),
    decreases k,
{
    if k == 0 {
        assert(exp2(0) == 1);
    } else {
        let e = exp2((k - 1) as nat);
        lemma_exp2_pos((k - 1) as nat);
        lemma_pxor_div_exp2(a / 2, b / 2, (k - 1) as nat);
        lemma_pxor_unfold(a, b);
        assert(exp2(k) == 2 * e);
        lemma_div_denominator(pxor(a, b) as int, 2, e as int);
        lemma_div_denominator(a as int, 2, e as int);
        lemma_div_denominator(b as int, 2, e as int);
    }
}

pub proof fn lemma_pxor_mod_exp2(a: nat, b: nat, k: nat)
    ensures
        pxor(a, b) % exp2(k) == pxor(a % exp2(k), b % exp2(k)),
    decreases k,
{
    if k == 0 {
        lemma_pxor_zero(0);
    } else {
        let e = exp2((k - 1) as nat);
        lemma_exp2_pos((k - 1) as nat);
        lemma_pxor_mod_exp2(a / 2, b / 2, (k - 1) as nat);
        lemma_pxor_unfold(a, b);
        lemma_mod_breakdown(pxor(a, b) as int, 2, e as int);
        lemma_mod_breakdown(a as int, 2, e as int);
        lemma_mod_breakdown(b as int, 2, e as int);
        lemma_pxor_digit((a / 2) % e, a % 2, (b / 2) % e, b % 2);
    }
}

/// The sum of two polynomials split at digit `k` into a high and a low part.
pub proof fn lemma_pxor_concat(a1: nat, a0: nat, b1: nat, b0: nat, k: nat)
    requires
        a0 < exp2(k),
        b0 < exp2(k),
    ensures
        pxor(a1 * exp2(k) + a0, b1 * exp2(k) + b0) == pxor(a1, b1) * exp2(k) + pxor(a0, b0),
        pxor(a0, b0) < exp2(k),
{
    let e = exp2(k);
    lemma_exp2_pos(k);
    let a = a1 * e + a0;
    let b = b1 * e + b0;
    lemma_fundamental_div_mod_converse(a as int, e as int, a1 as int, a0 as int);
    lemma_fundamental_div_mod_converse(b as int, e as int, b1 as int, b0 as int);
    lemma_pxor_div_exp2(a, b, k);
    lemma_pxor_mod_exp2(a, b, k);
    lemma_fundamental_div_mod(pxor(a, b) as int, e as int);
    lemma_mul_is_commutative(e as int, pxor(a1, b1) as int);
    lemma_pxor_bound(a0, b0, k);
}

/// Shifting commutes with addition.
pub proof fn lemma_pxor_shift(a: nat, b: nat, k: nat)
    ensures
        pxor(a * exp2(k), b * exp2(k)) == pxor(a, b) * exp2(k),
{
    lemma_exp2_pos(k);
    lemma_pxor_concat(a, 0, b, 0, k);
    lemma_pxor_zero(0);
}

/// Adding a polynomial with no digit at or above position `k` to one with
/// no digit below `k` is ordinary addition.
pub proof fn lemma_pxor_disjoint(a: nat, b: nat, k: nat)
    requires
        b < exp2(k),
    ensures
        pxor(a * exp2(k), b) == a * exp2(k) + b,
        pxor(b, a * exp2(k)) == a * exp2(k) + b,
{
    lemma_exp2_pos(k);
    lemma_pxor_concat(a, 0, 0, b, k);
    lemma_pxor_zero(a);
    lemma_pxor_zero(b);
    lemma_pxor_comm(b, a * exp2(k));
}

pub proof fn lemma_pxor_bitlen_le(a: nat, b: nat)
    ensures
        bitlen(pxor(a, b)) <= if bitlen(a) < bitlen(b) { bitlen(b) } else { bitlen(a) },
{
    let n = if bitlen(a) < bitlen(b) { bitlen(b) } else { bitlen(a) };
    lemma_bitlen_bound(a);
    lemma_bitlen_bound(b);
    lemma_exp2_mono(bitlen(a), n);
    lemma_exp2_mono(bitlen(b), n);
    lemma_pxor_bound(a, b, n);
    lemma_bitlen_le(pxor(a, b), n);
}

/// Adding a polynomial of smaller degree keeps the degree.
pub proof fn lemma_pxor_bitlen_lt(a: nat, b: nat)
    requires
        bitlen(a) < bitlen(b),
    ensures
        bitlen(pxor(a, b)) == bitlen(b),
        bitlen(pxor(b, a)) == bitlen(b),
{
    let n = bitlen(b);
    lemma_bitlen_bound(a);
    lemma_bitlen_bound(b);
    let e = exp2((n - 1) as nat);
    lemma_exp2_pos((n - 1) as nat);
    lemma_exp2_mono(bitlen(a), (n - 1) as nat);
    assert(exp2(n) == 2 * e);
    lemma_fundamental_div_mod_converse(a as int, e as int, 0, a as int);
    lemma_fundamental_div_mod_converse(b as int, e as int, 1, (b - e) as int);
    lemma_pxor_div_exp2(a, b, (n - 1) as nat);
    assert(pxor(0, 1) == 1);
    lemma_fundamental_div_mod(pxor(a, b) as int, e as int);
    lemma_pxor_bound(a, b, n);
    lemma_bitlen_exact(pxor(a, b), n);
    lemma_pxor_comm(a, b);
}

// ---------------------------------------------------------------------------
// Multiplication of binary polynomials
// ---------------------------------------------------------------------------

/// The product of two binary polynomials (the carry-less product of their
/// encodings), defined by recursion on the digits of `b`.
pub open spec fn pmul(a: nat, b: nat) -> nat
    decreases b,
{
    if b == 0 {
        0
    } else {
        pxor(if b % 2 == 1 { a } else { 0 }, 2 * pmul(a, b / 2))
    }
}

pub proof fn lemma_pmul_unfold(a: nat, b: nat)
    ensures
        pmul(a, b) == pxor(if b % 2 == 1 { a } else { 0 }, 2 * pmul(a, b / 2)),
{
    if b == 0 {
        lemma_pxor_zero(0);
    }
}

pub proof fn lemma_pmul_zero(a: nat)
    ensures
        pmul(a, 0) == 0,
        pmul(0, a) == 0,
    decreases a,
{
    if a > 0 {
        lemma_pmul_zero(a / 2);
        lemma_pxor_zero(0);
    }
}

pub proof fn lemma_pmul_one_right(a: nat)
    ensures
        pmul(a, 1) == a,
{
    assert(pmul(a, 0) == 0);
    lemma_pxor_zero(a);
}

pub proof fn lemma_pmul_double_right(a: nat, b: nat)
    ensures
        pmul(a, 2 * b) == 2 * pmul(a, b),
        pmul(a, 2 * b + 1) == pxor(a, 2 * pmul(a, b)),
{
    if b > 0 {
        lemma_pxor_zero(2 * pmul(a, b));
    }
}

pub proof fn lemma_pmul_one_left(b: nat)
    ensures
        pmul(1, b) == b,
    decreases b,
{
    if b > 0 {
        lemma_pmul_one_left(b / 2);
        lemma_pxor_digit(0, b % 2, b / 2, 0);
        lemma_pxor_zero(b / 2);
    }
}

pub proof fn lemma_pmul_double_left(a: nat, b: nat)
    ensures
        pmul(2 * a, b) == 2 * pmul(a, b),
    decreases b,
{
    if b > 0 {
        lemma_pmul_double_left(a, b / 2);
        let x: nat = if b % 2 == 1 { a } else { 0 };
        lemma_pxor_digit(x, 0, 2 * pmul(a, b / 2), 0);
    }
}

pub proof fn lemma_pmul_distrib_left(x: nat, y: nat, b: nat)
    ensures
        pmul(pxor(x, y), b) == pxor(pmul(x, b), pmul(y, b)),
    decreases b,
{
    if b == 0 {
        lemma_pxor_zero(0);
    } else {
        lemma_pmul_distrib_left(x, y, b / 2);
        let u = pmul(x, b / 2);
        let v = pmul(y, b / 2);
        let bx: nat = if b % 2 == 1 { x } else { 0 };
        let by: nat = if b % 2 == 1 { y } else { 0 };
        let bxy: nat = if b % 2 == 1 { pxor(x, y) } else { 0 };
        lemma_pxor_zero(0);
        assert(bxy == pxor(bx, by));
        lemma_pxor_digit(u, 0, v, 0);
        lemma_pxor_swap(bx, 2 * u, by, 2 * v);
    }
}

pub proof fn lemma_pmul_comm(a: nat, b: nat)
    ensures
        pmul(a, b) == pmul(b, a),
    decreases a,
{
    lemma_pmul_zero(b);
    if a > 0 {
        lemma_pmul_comm(a / 2, b);
        lemma_pxor_digit(a / 2, 0, 0, a % 2);
        lemma_pxor_zero(a / 2);
        assert(pxor(2 * (a / 2), a % 2) == a);
        lemma_pmul_distrib_left(2 * (a / 2), a % 2, b);
        lemma_pmul_double_left(a / 2, b);
        lemma_pmul_one_left(b);
        let t: nat = if a % 2 == 1 { b } else { 0 };
        assert(pmul(a % 2, b) == t);
        lemma_pxor_comm(2 * pmul(a / 2, b), t);
    }
}

pub proof fn lemma_pmul_distrib_right(a: nat, x: nat, y: nat)
    ensures
        pmul(a, pxor(x, y)) == pxor(pmul(a, x), pmul(a, y)),
{
    lemma_pmul_comm(a, pxor(x, y));
    lemma_pmul_distrib_left(x, y, a);
    lemma_pmul_comm(x, a);
    lemma_pmul_comm(y, a);
}

pub proof fn lemma_pmul_assoc(a: nat, b: nat, c: nat)
    ensures
        pmul(pmul(a, b), c) == pmul(a, pmul(b, c)),
    decreases c,
{
    if c == 0 {
        lemma_pmul_zero(a);
    } else {
        lemma_pmul_assoc(a, b, c / 2);
        let bb: nat = if c % 2 == 1 { b } else { 0 };
        lemma_pmul_distrib_right(a, bb, 2 * pmul(b, c / 2));
        lemma_pmul_double_right(a, pmul(b, c / 2));
        lemma_pmul_zero(a);
    }
}

pub proof fn lemma_pmul_exp2(a: nat, s: nat)
    ensures
        pmul(a, exp2(s)) == a * exp2(s),
        pmul(exp2(s), a) == a * exp2(s),
    decreases s,
{
    if s == 0 {
        lemma_pmul_one_right(a);
        assert(exp2(0) == 1);
    } else {
        let e = exp2((s - 1) as nat);
        assert(exp2(s) == 2 * e);
        lemma_pmul_exp2(a, (s - 1) as nat);
        lemma_pmul_double_right(a, e);
        assert(2 * (a * e) == a * (2 * e)) by (nonlinear_arith);
    }
    lemma_pmul_comm(a, exp2(s));
}

/// Multiplying a factor by `x^s` shifts the product by `s` digits.
pub proof fn lemma_pmul_shift(a: nat, b: nat, s: nat)
    ensures
        pmul(a * exp2(s), b) == pmul(a, b) * exp2(s),
        pmul(b, a * exp2(s)) == pmul(a, b) * exp2(s),
{
    lemma_pmul_exp2(a, s);
    lemma_pmul_assoc(a, exp2(s), b);
    lemma_pmul_comm(exp2(s), b);
    lemma_pmul_assoc(a, b, exp2(s));
    lemma_pmul_exp2(pmul(a, b), s);
    lemma_pmul_comm(b, a * exp2(s));
}

pub proof fn lemma_pmul_bound(a: nat, b: nat, n: nat, m: nat)
    requires
        a < exp2(n),
        b < exp2(m),
    ensures
        pmul(a, b) < exp2(n + m),
    decreases m,
{
    lemma_exp2_pos(n + m);
    if m > 0 {
        lemma_pmul_bound(a, b / 2, n, (m - 1) as nat);
        assert(exp2(n + m) == 2 * exp2((n + m - 1) as nat));
        assert((n + (m - 1)) as nat == (n + m - 1) as nat);
        lemma_exp2_mono(n, n + m);
        lemma_pxor_bound(if b % 2 == 1 { a } else { 0 }, 2 * pmul(a, b / 2), n + m);
    }
}

/// The degree of a product is the sum of the degrees of its factors.
pub proof fn lemma_pmul_bitlen(a: nat, b: nat)
    requires
        a > 0,
        b > 0,
    ensures
        bitlen(pmul(a, b)) == bitlen(a) + bitlen(b) - 1,
        pmul(a, b) > 0,
    decreases b,
{
    lemma_bitlen_bound(a);
    if b == 1 {
        lemma_pmul_one_right(a);
    } else {
        lemma_pmul_bitlen(a, b / 2);
        let p = pmul(a, b / 2);
        assert(bitlen(2 * p) == 1 + bitlen(p));
        let x: nat = if b % 2 == 1 { a } else { 0 };
        lemma_bitlen_bound(b / 2);
        lemma_pxor_bitlen_lt(x, 2 * p);
    }
    lemma_bitlen_bound(pmul(a, b));
}

// ---------------------------------------------------------------------------
// Division of binary polynomials
// ---------------------------------------------------------------------------

/// Polynomial long division of `a` by `m`, giving the quotient and the
/// remainder. Each step cancels the top digit of `a` with `m` shifted into
/// place. Division by the zero polynomial leaves `a` as the remainder.
pub open spec fn pdivmod(a: nat, m: nat) -> (nat, nat)
    decreases a,
{
    if m == 0 || bitlen(a) < bitlen(m) {
        (0, a)
    } else {
        let s = (bitlen(a) - bitlen(m)) as nat;
        let a2 = pxor(a, m * exp2(s));
        if a2 < a {
            let qr = pdivmod(a2, m);
            (pxor(qr.0, exp2(s)), qr.1)
        } else {
            (0, a)
        }
    }
}

/// The quotient of polynomial division.
pub open spec fn pdiv(a: nat, m: nat) -> nat {
    pdivmod(a, m).0
}

/// The remainder of polynomial division.
pub open spec fn pmod(a: nat, m: nat) -> nat {
    pdivmod(a, m).1
}

/// One step of long division lowers the degree.
pub proof fn lemma_divmod_step(a: nat, m: nat)
    requires
        m > 0,
        bitlen(a) >= bitlen(m),
    ensures
        pxor(a, m * exp2((bitlen(a) - bitlen(m)) as nat)) < a,
        bitlen(pxor(a, m * exp2((bitlen(a) - bitlen(m)) as nat))) < bitlen(a),
{
    let s = (bitlen(a) - bitlen(m)) as nat;
    let b = m * exp2(s);
    lemma_bitlen_bound(m);
    lemma_bitlen_bound(a);
    let n = bitlen(a);
    lemma_bitlen_shift(m, s);
    lemma_bitlen_bound(b);
    let e = exp2((n - 1) as nat);
    lemma_exp2_pos((n - 1) as nat);
    assert(exp2(n) == 2 * e);
    lemma_fundamental_div_mod_converse(a as int, e as int, 1, (a - e) as int);
    lemma_fundamental_div_mod_converse(b as int, e as int, 1, (b - e) as int);
    lemma_pxor_div_exp2(a, b, (n - 1) as nat);
    lemma_pxor_self(1);
    lemma_fundamental_div_mod(pxor(a, b) as int, e as int);
    lemma_bitlen_le(pxor(a, b), (n - 1) as nat);
}

/// The defining property of division: `a == q*m + r` with `deg r < deg m`.
pub proof fn lemma_pdivmod(a: nat, m: nat)
    requires
        m > 0,
    ensures
        pxor(pmul(pdiv(a, m), m), pmod(a, m)) == a,
        bitlen(pmod(a, m)) < bitlen(m),
    decreases a,
{
    if bitlen(a) < bitlen(m) {
        lemma_pmul_zero(m);
        lemma_pxor_zero(a);
    } else {
        let s = (bitlen(a) - bitlen(m)) as nat;
        let b = m * exp2(s);
        let a2 = pxor(a, b);
        lemma_divmod_step(a, m);
        lemma_pdivmod(a2, m);
        let q2 = pdiv(a2, m);
        let r = pmod(a2, m);
        lemma_pmul_distrib_left(q2, exp2(s), m);
        lemma_pmul_exp2(m, s);
        // (q2*m + b) + r == (q2*m + r) + b == a2 + b == a
        lemma_pxor_assoc(pmul(q2, m), b, r);
        lemma_pxor_comm(b, r);
        lemma_pxor_assoc(pmul(q2, m), r, b);
        lemma_pxor_cancel(a, b);
    }
}

/// Quotient and remainder are the only pair with the defining property.
pub proof fn lemma_pdivmod_unique(a: nat, m: nat, q: nat, r: nat)
    requires
        m > 0,
        a == pxor(pmul(q, m), r),
        bitlen(r) < bitlen(m),
    ensures
        pdiv(a, m) == q,
        pmod(a, m) == r,
{
    lemma_pdivmod(a, m);
    let q0 = pdiv(a, m);
    let r0 = pmod(a, m);
    let x = pmul(q, m);
    let y = pmul(q0, m);
    lemma_pxor_self(a);
    lemma_pxor_swap(x, r, y, r0);
    lemma_pxor_eq_zero(pxor(x, y), pxor(r, r0));
    lemma_pmul_distrib_left(q, q0, m);
    let d = pxor(q, q0);
    lemma_pxor_bitlen_le(r, r0);
    if d > 0 {
        lemma_pmul_bitlen(d, m);
        lemma_bitlen_bound(d);
        assert(false);
    }
    lemma_pxor_eq_zero(q, q0);
    lemma_pmul_zero(m);
    lemma_pxor_eq_zero(r, r0);
}

/// A polynomial of smaller degree than the divisor is its own remainder.
pub proof fn lemma_pmod_small(a: nat, m: nat)
    requires
        bitlen(a) < bitlen(m),
    ensures
        pmod(a, m) == a,
        pdiv(a, m) == 0,
{
}

/// A remainder by a divisor with `w + 1` digits has at most `w` digits.
pub proof fn lemma_pmod_bound(a: nat, m: nat)
    requires
        m > 0,
    ensures
        pmod(a, m) < exp2((bitlen(m) - 1) as nat),
        bitlen(pmod(a, m)) < bitlen(m),
{
    lemma_pdivmod(a, m);
    lemma_bitlen_bound(pmod(a, m));
    lemma_exp2_mono(bitlen(pmod(a, m)), (bitlen(m) - 1) as nat);
}

/// Taking the remainder twice changes nothing.
pub proof fn lemma_pmod_idem(a: nat, m: nat)
    requires
        m > 0,
    ensures
        pmod(pmod(a, m), m) == pmod(a, m),
{
    lemma_pdivmod(a, m);
    lemma_pmod_small(pmod(a, m), m);
}

/// The degree of the quotient.
pub proof fn lemma_pdiv_bitlen(a: nat, m: nat)
    requires
        m > 0,
    ensures
        bitlen(a) < bitlen(m) ==> pdiv(a, m) == 0,
        bitlen(a) >= bitlen(m) ==> bitlen(pdiv(a, m)) == bitlen(a) + 1 - bitlen(m),
{
    lemma_pdivmod(a, m);
    let q = pdiv(a, m);
    let r = pmod(a, m);
    if bitlen(a) >= bitlen(m) {
        if q == 0 {
            lemma_pmul_zero(m);
            lemma_pxor_zero(r);
        } else {
            lemma_pmul_bitlen(q, m);
            lemma_pxor_bitlen_lt(r, pmul(q, m));
        }
    }
}

/// Remainder and quotient are additive.
pub proof fn lemma_pdivmod_pxor(a: nat, b: nat, m: nat)
    requires
        m > 0,
    ensures
        pmod(pxor(a, b), m) == pxor(pmod(a, m), pmod(b, m)),
        pdiv(pxor(a, b), m) == pxor(pdiv(a, m), pdiv(b, m)),
{
    lemma_pdivmod(a, m);
    lemma_pdivmod(b, m);
    let qa = pdiv(a, m);
    let qb = pdiv(b, m);
    let ra = pmod(a, m);
    let rb = pmod(b, m);
    lemma_pmul_distrib_left(qa, qb, m);
    lemma_pxor_swap(pmul(qa, m), pmul(qb, m), ra, rb);
    lemma_pxor_swap(pmul(qa, m), ra, pmul(qb, m), rb);
    lemma_pxor_bitlen_le(ra, rb);
    lemma_pdivmod_unique(pxor(a, b), m, pxor(qa, qb), pxor(ra, rb));
}

/// Adding a multiple of the divisor does not change the remainder.
pub proof fn lemma_pmod_multiple(a: nat, k: nat, m: nat)
    requires
        m > 0,
    ensures
        pmod(pxor(a, pmul(k, m)), m) == pmod(a, m),
        pmod(pmul(k, m), m) == 0,
{
    lemma_pdivmod(a, m);
    let q = pdiv(a, m);
    let r = pmod(a, m);
    lemma_pmul_distrib_left(q, k, m);
    lemma_pxor_assoc(pmul(q, m), r, pmul(k, m));
    lemma_pxor_comm(r, pmul(k, m));
    lemma_pxor_assoc(pmul(q, m), pmul(k, m), r);
    lemma_pdivmod_unique(pxor(a, pmul(k, m)), m, pxor(q, k), r);
    lemma_pxor_zero(pmul(k, m));
    lemma_bitlen_bound(m);
    lemma_pdivmod_unique(pmul(k, m), m, k, 0);
}

/// The remainder of a product depends only on the remainders of the factors.
pub proof fn lemma_pmod_pmul(a: nat, b: nat, m: nat)
    requires
        m > 0,
    ensures
        pmod(pmul(a, b), m) == pmod(pmul(pmod(a, m), b), m),
        pmod(pmul(a, b), m) == pmod(pmul(a, pmod(b, m)), m),
        pmod(pmul(a, b), m) == pmod(pmul(pmod(a, m), pmod(b, m)), m),
{
    lemma_pmod_pmul_left(a, b, m);
    lemma_pmul_comm(a, b);
    lemma_pmod_pmul_left(b, a, m);
    lemma_pmul_comm(pmod(b, m), a);
    lemma_pmod_pmul_left(a, pmod(b, m), m);
}

proof fn lemma_pmod_pmul_left(a: nat, b: nat, m: nat)
    requires
        m > 0,
    ensures
        pmod(pmul(a, b), m) == pmod(pmul(pmod(a, m), b), m),
{
    lemma_pdivmod(a, m);
    let q = pdiv(a, m);
    let r = pmod(a, m);
    lemma_pmul_distrib_left(pmul(q, m), r, b);
    lemma_pmul_assoc(q, m, b);
    lemma_pmul_comm(m, b);
    lemma_pmul_assoc(q, b, m);
    lemma_pxor_comm(pmul(pmul(q, m), b), pmul(r, b));
    lemma_pmod_multiple(pmul(r, b), pmul(q, b), m);
}

/// Remainder by `x^n` is truncation to the low `n` digits.
pub proof fn lemma_pmod_exp2(a: nat, n: nat)
    ensures
        pmod(a, exp2(n)) == a % exp2(n),
        pdiv(a, exp2(n)) == a / exp2(n),
{
    let e = exp2(n);
    lemma_exp2_pos(n);
    lemma_fundamental_div_mod(a as int, e as int);
    lemma_mul_is_commutative(e as int, (a / e) as int);
    lemma_pmul_exp2(a / e, n);
    lemma_pxor_disjoint(a / e, a % e, n);
    lemma_pxor_comm(pmul(a / e, e), a % e);
    lemma_bitlen_le(a % e, n);
    assert(bitlen(e) == n + 1) by {
        lemma_exp2_pos(n);
        lemma_exp2_add(n, 1);
        assert(exp2(1) == 2 * exp2(0));
        lemma_bitlen_exact(e, n + 1);
    }
    lemma_pdivmod_unique(a, e, a / e, a % e);
}

// ---------------------------------------------------------------------------
// Arithmetic modulo a polynomial
// ---------------------------------------------------------------------------

/// The product of `a` and `b` reduced modulo `m`.
pub open spec fn mulmod(a: nat, b: nat, m: nat) -> nat {
    pmod(pmul(a, b), m)
}

/// `a` raised to the power `e`, reduced modulo `m`.
pub open spec fn powmod(a: nat, e: nat, m: nat) -> nat
    decreases e,
{
    if e == 0 {
        pmod(1, m)
    } else {
        mulmod(a, powmod(a, (e - 1) as nat, m), m)
    }
}

pub proof fn lemma_mulmod_comm(a: nat, b: nat, m: nat)
    ensures
        mulmod(a, b, m) == mulmod(b, a, m),
{
    lemma_pmul_comm(a, b);
}

pub proof fn lemma_mulmod_assoc(a: nat, b: nat, c: nat, m: nat)
    requires
        m > 0,
    ensures
        mulmod(mulmod(a, b, m), c, m) == mulmod(a, mulmod(b, c, m), m),
{
    lemma_pmod_pmul(pmul(a, b), c, m);
    lemma_pmul_assoc(a, b, c);
    lemma_pmod_pmul(a, pmul(b, c), m);
}

/// Reducing a factor first does not change the product.
pub proof fn lemma_mulmod_reduce(a: nat, b: nat, m: nat)
    requires
        m > 0,
    ensures
        mulmod(pmod(a, m), b, m) == mulmod(a, b, m),
        mulmod(a, pmod(b, m), m) == mulmod(a, b, m),
{
    lemma_pmod_pmul(a, b, m);
}

pub proof fn lemma_mulmod_one(a: nat, m: nat)
    requires
        m > 0,
    ensures
        mulmod(a, 1, m) == pmod(a, m),
        mulmod(1, a, m) == pmod(a, m),
        mulmod(a, pmod(1, m), m) == pmod(a, m),
{
    lemma_pmul_one_right(a);
    lemma_pmul_one_left(a);
    lemma_pmod_pmul(a, 1, m);
}

/// Multiplication distributes over addition modulo `m`.
pub proof fn lemma_mulmod_distrib(a: nat, b: nat, c: nat, m: nat)
    requires
        m > 0,
    ensures
        mulmod(a, pxor(b, c), m) == pxor(mulmod(a, b, m), mulmod(a, c, m)),
{
    lemma_pmul_distrib_right(a, b, c);
    lemma_pdivmod_pxor(pmul(a, b), pmul(a, c), m);
}

pub proof fn lemma_powmod_reduced(a: nat, e: nat, m: nat)
    requires
        m > 0,
    ensures
        bitlen(powmod(a, e, m)) < bitlen(m),
        pmod(powmod(a, e, m), m) == powmod(a, e, m),
{
    if e == 0 {
        lemma_pmod_bound(1, m);
        lemma_pmod_idem(1, m);
    } else {
        lemma_pmod_bound(pmul(a, powmod(a, (e - 1) as nat, m)), m);
        lemma_pmod_idem(pmul(a, powmod(a, (e - 1) as nat, m)), m);
    }
}

pub proof fn lemma_powmod_add(a: nat, i: nat, j: nat, m: nat)
    requires
        m > 0,
    ensures
        powmod(a, i + j, m) == mulmod(powmod(a, i, m), powmod(a, j, m), m),
    decreases i,
{
    if i == 0 {
        lemma_powmod_reduced(a, j, m);
        lemma_mulmod_one(powmod(a, j, m), m);
        lemma_mulmod_comm(pmod(1, m), powmod(a, j, m), m);
    } else {
        lemma_powmod_add(a, (i - 1) as nat, j, m);
        assert((i + j - 1) as nat == (i - 1) as nat + j);
        lemma_mulmod_assoc(a, powmod(a, (i - 1) as nat, m), powmod(a, j, m), m);
    }
}

pub proof fn lemma_powmod_square(a: nat, k: nat, m: nat)
    requires
        m > 0,
    ensures
        powmod(a, 2 * k, m) == powmod(mulmod(a, a, m), k, m),
    decreases k,
{
    if k > 0 {
        lemma_powmod_square(a, (k - 1) as nat, m);
        let t = powmod(a, (2 * k - 2) as nat, m);
        assert(powmod(a, 2 * k, m) == mulmod(a, powmod(a, (2 * k - 1) as nat, m), m));
        assert(powmod(a, (2 * k - 1) as nat, m) == mulmod(a, t, m));
        lemma_mulmod_assoc(a, a, t, m);
        assert((2 * k - 2) as nat == 2 * ((k - 1) as nat));
    }
}

/// Raising a reduced base gives the same power.
pub proof fn lemma_powmod_base(a: nat, e: nat, m: nat)
    requires
        m > 0,
    ensures
        powmod(pmod(a, m), e, m) == powmod(a, e, m),
    decreases e,
{
    if e > 0 {
        lemma_powmod_base(a, (e - 1) as nat, m);
        lemma_mulmod_reduce(a, powmod(a, (e - 1) as nat, m), m);
    }
}

/// The power of a product is the product of the powers.
pub proof fn lemma_powmod_mul(a: nat, b: nat, e: nat, m: nat)
    requires
        m > 0,
    ensures
        powmod(mulmod(a, b, m), e, m) == mulmod(powmod(a, e, m), powmod(b, e, m), m),
    decreases e,
{
    if e == 0 {
        lemma_pmod_idem(1, m);
        lemma_mulmod_one(pmod(1, m), m);
    } else {
        let pa = powmod(a, (e - 1) as nat, m);
        let pb = powmod(b, (e - 1) as nat, m);
        lemma_powmod_mul(a, b, (e - 1) as nat, m);
        // (ab)(pa pb) == (a pa)(b pb)
        lemma_mulmod_assoc(mulmod(a, b, m), pa, pb, m);
        lemma_mulmod_assoc(a, b, pa, m);
        lemma_mulmod_comm(b, pa, m);
        lemma_mulmod_assoc(a, pa, b, m);
        lemma_mulmod_assoc(mulmod(a, pa, m), b, pb, m);
        lemma_mulmod_reduce(a, mulmod(b, pa, m), m);
        lemma_mulmod_reduce(mulmod(a, b, m), pa, m);
    }
}

// ---------------------------------------------------------------------------
// Bit reversal
// ---------------------------------------------------------------------------

/// The low `n` digits of `x` in reverse order.
pub open spec fn rev(x: nat, n: nat) -> nat
    decreases n,
{
    if n == 0 {
        0
    } else {
        rev(x / 2, (n - 1) as nat) + (x % 2) * exp2((n - 1) as nat)
    }
}

pub proof fn lemma_rev_bound(x: nat, n: nat)
    ensures
        rev(x, n) < exp2(n),
    decreases n,
{
    if n > 0 {
        let e = exp2((n - 1) as nat);
        lemma_rev_bound(x / 2, (n - 1) as nat);
        assert(exp2(n) == 2 * e);
        if x % 2 == 0 {
            assert((x % 2) * e == 0);
        } else {
            assert((x % 2) * e == e);
        }
    } else {
        assert(exp2(0) == 1);
    }
}

/// Reversing a value whose top digit is `c` puts `c` at the bottom.
pub proof fn lemma_rev_top(z: nat, c: nat, n: nat)
    requires
        n > 0,
        z < exp2((n - 1) as nat),
        c < 2,
    ensures
        rev(z + c * exp2((n - 1) as nat), n) == c + 2 * rev(z, (n - 1) as nat),
    decreases n,
{
    let e = exp2((n - 1) as nat);
    if n == 1 {
        assert(e == 1);
        assert(z == 0);
        assert(rev(c, 1) == rev(c / 2, 0) + (c % 2) * 1);
    } else {
        let e1 = exp2((n - 2) as nat);
        assert(e == 2 * e1);
        lemma_rev_top(z / 2, c, (n - 1) as nat);
        let x = z + c * e;
        if c == 0 {
            assert(x == z);
        } else {
            assert(x == z + 2 * e1);
            assert(x / 2 == z / 2 + e1);
            assert(x % 2 == z % 2);
        }
        assert(x / 2 == z / 2 + c * e1);
        assert(x % 2 == z % 2);
        assert(rev(z, (n - 1) as nat) == rev(z / 2, (n - 2) as nat) + (z % 2) * e1);
        assert((z % 2) * e == 2 * ((z % 2) * e1)) by (nonlinear_arith)
            requires
                e == 2 * e1,
        ;
    }
}

/// Reversing twice gives back the low `n` digits.
pub proof fn lemma_rev_rev(x: nat, n: nat)
    requires
        x < exp2(n),
    ensures
        rev(rev(x, n), n) == x,
    decreases n,
{
    if n > 0 {
        let y = x / 2;
        assert(exp2(n) == 2 * exp2((n - 1) as nat));
        lemma_rev_rev(y, (n - 1) as nat);
        lemma_rev_bound(y, (n - 1) as nat);
        lemma_rev_top(rev(y, (n - 1) as nat), x % 2, n);
    }
}

} // verus!
