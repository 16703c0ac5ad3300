//! The mathematics of linear-feedback shift registers.
//!
//! A Galois LFSR with `w` digits of state and feedback polynomial `p` (of
//! `w + 1` digits, constant term 1) is multiplication by `x` modulo `p`.
//! Stepping `k` digits from state `s` gives the state `s * x^k mod p` and
//! outputs the quotient `s * x^k / p`, the digits that fell off the top.
//! Because `p` has a constant term, `x` has an inverse modulo `p`, namely
//! `p / x`, so every step can be undone.

use vstd::prelude::*;
use crate::poly::{
    exp2, bitlen, pxor, pmul, pdiv, pmod, mulmod, powmod, lemma_exp2_pos, lemma_exp2_mono,
    lemma_exp2_add, lemma_pxor_bound, lemma_pxor_assoc, lemma_pxor_comm, lemma_pxor_cancel,
    lemma_pxor_shift, lemma_pxor_digit, lemma_pxor_zero, lemma_pxor_disjoint, lemma_pdivmod,
    lemma_pdivmod_unique, lemma_pdivmod_pxor, lemma_pmod_pmul, lemma_pmod_small, lemma_pmod_idem,
    lemma_pmod_multiple, lemma_pmul_exp2, lemma_pmul_double_left, lemma_pmul_distrib_left,
    lemma_pmul_shift, lemma_pmul_comm, lemma_pmul_one_left, lemma_pmul_zero, lemma_bitlen_le,
    lemma_bitlen_bound, lemma_mulmod_assoc, lemma_mulmod_comm, lemma_mulmod_one,
    lemma_powmod_mul, lemma_powmod_reduced, lemma_pmod_bound,
};
use crate::bits::{lemma_xor, lemma_shl, lemma_shr, lemma_exp2_values};
use crate::arith::{lemma_reduce_once, mulmod_u128, powmod_u128};

verus! {

/// The state `k` steps after state `s`: `s * x^k mod poly`.
pub open spec fn lfsr_state(s: nat, k: nat, poly: nat) -> nat {
    pmod(s * exp2(k), poly)
}

/// The `k` digits output by stepping `k` times from state `s`, the first
/// output digit being the most significant: `s * x^k / poly`.
pub open spec fn lfsr_output(s: nat, k: nat, poly: nat) -> nat {
    pdiv(s * exp2(k), poly)
}

/// A feedback polynomial of `w + 1` digits with constant term 1.
pub open spec fn lfsr_params_ok(poly: nat, w: nat) -> bool {
    &&& 2 <= w <= 64
    &&& bitlen(poly) == w + 1
    &&& poly % 2 == 1
}

/// The inverse of `x` modulo the feedback polynomial.
pub open spec fn lfsr_x_inverse(poly: nat) -> nat {
    poly / 2
}

proof fn lemma_poly_bound(poly: nat, w: nat)
    requires
        lfsr_params_ok(poly, w),
    ensures
        poly < exp2(w + 1),
        poly > 0,
        exp2(w + 1) == 2 * exp2(w),
        exp2(w + 1) <= exp2(65),
        exp2(65) < exp2(128),
{
    lemma_bitlen_bound(poly);
    lemma_exp2_pos(w);
    lemma_exp2_mono(w + 1, 65);
    crate::poly::lemma_exp2_strict_mono(65, 128);
}

/// One forward step extends the quotient by one digit.
proof fn lemma_next_step(s0: nat, j: nat, q: nat, t: nat, poly: nat, w: nat)
    requires
        lfsr_params_ok(poly, w),
        t < exp2(w),
        pdiv(s0 * exp2(j), poly) == q,
        pmod(s0 * exp2(j), poly) == t,
    ensures
        pdiv(s0 * exp2(j + 1), poly) == 2 * q + pdiv(2 * t, poly),
        pmod(s0 * exp2(j + 1), poly) == pmod(2 * t, poly),
        pdiv(2 * t, poly) < 2,
{
    lemma_poly_bound(poly, w);
    let x = s0 * exp2(j);
    lemma_pdivmod(x, poly);
    lemma_reduce_once(2 * t, poly, w);
    let o = pdiv(2 * t, poly);
    let t2 = pmod(2 * t, poly);
    lemma_pdivmod(2 * t, poly);
    // 2x == (2q) p + 2t == (2q + o) p + t2
    lemma_pxor_shift(pmul(q, poly), t, 1);
    assert(exp2(0) == 1);
    assert(exp2(1) == 2);
    lemma_pmul_double_left(q, poly);
    lemma_pxor_assoc(pmul(2 * q, poly), pmul(o, poly), t2);
    lemma_pmul_distrib_left(2 * q, o, poly);
    lemma_pxor_digit(q, 0, 0, o);
    lemma_pxor_zero(q);
    assert(exp2(j + 1) == 2 * exp2(j));
    assert(x * 2 == s0 * exp2(j + 1)) by (nonlinear_arith)
        requires
            x == s0 * exp2(j),
            exp2(j + 1) == 2 * exp2(j),
    ;
    lemma_pdivmod_unique(s0 * exp2(j + 1), poly, 2 * q + o, t2);
}

/// Step the register `k` digits forward, one digit at a time. Returns the
/// output digits and the new state.
pub fn lfsr_next_bits(s: u128, k: u32, poly: u128, w: u32) -> (r: (u128, u128))
    requires
        lfsr_params_ok(poly as nat, w as nat),
        (s as nat) < exp2(w as nat),
        k <= 64,
    ensures
        r.0 as nat == lfsr_output(s as nat, k as nat, poly as nat),
        r.1 as nat == lfsr_state(s as nat, k as nat, poly as nat),
        (r.0 as nat) < exp2(k as nat),
        (r.1 as nat) < exp2(w as nat),
{
    let mut t: u128 = s;
    let mut q: u128 = 0;
    let mut j: u32 = 0;
    proof {
        lemma_poly_bound(poly as nat, w as nat);
        assert(exp2(0) == 1);
        assert(s as nat * 1 == s as nat);
        lemma_bitlen_le(s as nat, w as nat);
        lemma_pmod_small(s as nat, poly as nat);
    }
    while j < k
        invariant
            lfsr_params_ok(poly as nat, w as nat),
            k <= 64,
            j <= k,
            (t as nat) < exp2(w as nat),
            (q as nat) < exp2(j as nat),
            pdiv(s as nat * exp2(j as nat), poly as nat) == q as nat,
            pmod(s as nat * exp2(j as nat), poly as nat) == t as nat,
        decreases k - j,
    {
        proof {
            lemma_poly_bound(poly as nat, w as nat);
            lemma_exp2_values();
            lemma_shl(t, 1);
            lemma_next_step(s as nat, j as nat, q as nat, t as nat, poly as nat, w as nat);
            lemma_reduce_once(2 * t as nat, poly as nat, w as nat);
            lemma_shr((2 * t) as u128, w);
            lemma_exp2_mono(j as nat + 1, 64);
            assert(exp2(j as nat + 1) == 2 * exp2(j as nat));
        }
        let d: u128 = t << 1u32;
        let o: u128 = d >> w;
        let mut u: u128 = d;
        if o == 1 {
            proof {
                lemma_xor(d, poly);
            }
            u = d ^ poly;
        }
        proof {
            if d as nat >= exp2(w as nat) {
                assert(d as nat / exp2(w as nat) >= 1) by {
                    vstd::arithmetic::div_mod::lemma_div_is_ordered(exp2(w as nat) as int, d as int, exp2(w as nat) as int);
                    vstd::arithmetic::div_mod::lemma_div_by_multiple(1, exp2(w as nat) as int);
                }
            } else {
                vstd::arithmetic::div_mod::lemma_basic_div(d as int, exp2(w as nat) as int);
            }
            assert(d as nat / exp2(w as nat) < 2) by {
                vstd::arithmetic::div_mod::lemma_div_by_multiple(2, exp2(w as nat) as int);
                vstd::arithmetic::div_mod::lemma_div_is_ordered(d as int, (2 * exp2(w as nat)) as int, exp2(w as nat) as int);
                if d as nat / exp2(w as nat) >= 2 {
                    vstd::arithmetic::div_mod::lemma_fundamental_div_mod(d as int, exp2(w as nat) as int);
                    assert(false) by (nonlinear_arith)
                        requires
                            d as nat / exp2(w as nat) >= 2,
                            (d as nat) < 2 * exp2(w as nat),
                            d as int == exp2(w as nat) * (d as nat / exp2(w as nat)) + d as nat % exp2(w as nat),
                            exp2(w as nat) > 0,
                    ;
                }
            }
        }
        q = 2 * q + o;
        t = u;
        j = j + 1;
    }
    (q, t)
}

/// One backward step: the state before `t`, and the digit that the forward
/// step from it outputs.
proof fn lemma_prev_step(s: nat, j: nat, q: nat, t: nat, poly: nat, w: nat, o: nat, u: nat)
    requires
        lfsr_params_ok(poly, w),
        t < exp2(w),
        q < exp2(j),
        pdiv(t * exp2(j), poly) == q,
        pmod(t * exp2(j), poly) == s,
        o == t % 2,
        u == pxor(t, o * poly),
    ensures
        u % 2 == 0,
        u / 2 < exp2(w),
        pdiv((u / 2) * exp2(j + 1), poly) == q + o * exp2(j),
        pmod((u / 2) * exp2(j + 1), poly) == s,
        q + o * exp2(j) < exp2(j + 1),
{
    lemma_poly_bound(poly, w);
    let t2 = u / 2;
    // u is even: its low digit is t's plus o times poly's, which cancel
    crate::poly::lemma_pxor_unfold(t, o * poly);
    if o == 1 {
        assert(o * poly == poly) by (nonlinear_arith)
            requires
                o == 1,
        ;
    } else {
        assert(o == 0);
        assert(o * poly == 0) by (nonlinear_arith)
            requires
                o == 0,
        ;
    }
    assert(u % 2 == 0);
    assert(u == 2 * t2);
    lemma_exp2_mono(w, w + 1);
    assert(o * poly < exp2(w + 1));
    lemma_pxor_bound(t, o * poly, w + 1);
    // 2 t2 == o * poly + t, with t reduced
    lemma_pxor_comm(t, o * poly);
    lemma_pmul_zero(poly);
    lemma_pmul_one_left(poly);
    assert(pmul(o, poly) == o * poly);
    lemma_bitlen_le(t, w);
    // t2 * x^(j+1) == (o x^j + q) p + s
    lemma_pdivmod(t * exp2(j), poly);
    lemma_pxor_shift(o * poly, t, j);
    lemma_pmul_shift(o, poly, j);
    assert(exp2(j + 1) == 2 * exp2(j));
    assert(t2 * exp2(j + 1) == u * exp2(j)) by (nonlinear_arith)
        requires
            u == 2 * t2,
            exp2(j + 1) == 2 * exp2(j),
    ;
    assert(u * exp2(j) == pxor(pmul(o * exp2(j), poly), t * exp2(j)));
    lemma_pxor_assoc(pmul(o * exp2(j), poly), pmul(q, poly), s);
    lemma_pmul_distrib_left(o * exp2(j), q, poly);
    lemma_pxor_disjoint(o, q, j);
    lemma_pmod_bound(t * exp2(j), poly);
    lemma_pdivmod_unique(t2 * exp2(j + 1), poly, q + o * exp2(j), s);
    assert(o * exp2(j) <= exp2(j)) by (nonlinear_arith)
        requires
            o < 2,
    ;
}

/// Step the register `k` digits backward, one digit at a time. Returns the
/// earlier state and the digits that stepping forward from it outputs.
pub fn lfsr_prev_bits(s: u128, k: u32, poly: u128, w: u32) -> (r: (u128, u128))
    requires
        lfsr_params_ok(poly as nat, w as nat),
        (s as nat) < exp2(w as nat),
        k <= 64,
    ensures
        r.0 as nat == lfsr_output(r.1 as nat, k as nat, poly as nat),
        lfsr_state(r.1 as nat, k as nat, poly as nat) == s as nat,
        (r.0 as nat) < exp2(k as nat),
        (r.1 as nat) < exp2(w as nat),
{
    let mut t: u128 = s;
    let mut q: u128 = 0;
    let mut j: u32 = 0;
    proof {
        lemma_poly_bound(poly as nat, w as nat);
        assert(exp2(0) == 1);
        assert(s as nat * 1 == s as nat);
        lemma_bitlen_le(s as nat, w as nat);
        lemma_pmod_small(s as nat, poly as nat);
    }
    while j < k
        invariant
            lfsr_params_ok(poly as nat, w as nat),
            k <= 64,
            j <= k,
            (t as nat) < exp2(w as nat),
            (q as nat) < exp2(j as nat),
            pdiv(t as nat * exp2(j as nat), poly as nat) == q as nat,
            pmod(t as nat * exp2(j as nat), poly as nat) == s as nat,
        decreases k - j,
    {
        let o: u128 = t % 2;
        let f: u128 = if o == 1 { poly } else { 0 };
        proof {
            lemma_poly_bound(poly as nat, w as nat);
            lemma_exp2_values();
            lemma_xor(t, f);
            if o == 1 {
                assert(o as nat * poly as nat == poly as nat) by (nonlinear_arith)
                    requires
                        o == 1,
                ;
            } else {
                assert(o as nat * poly as nat == 0) by (nonlinear_arith)
                    requires
                        o == 0,
                ;
            }
            assert(f as nat == o as nat * poly as nat);
        }
        let u: u128 = t ^ f;
        proof {
            lemma_prev_step(s as nat, j as nat, q as nat, t as nat, poly as nat, w as nat, o as nat, u as nat);
            lemma_exp2_mono(j as nat + 1, 64);
            lemma_shl(1, j);
            assert(o as nat * exp2(j as nat) <= exp2(j as nat)) by (nonlinear_arith)
                requires
                    o < 2,
            ;
        }
        let bit: u128 = 1u128 << j;
        q = q + o * bit;
        t = u / 2;
        j = j + 1;
    }
    (q, t)
}

/// `x^n` modulo the polynomial, as a power of `x`.
proof fn lemma_powmod_x(n: nat, poly: nat, w: nat)
    requires
        lfsr_params_ok(poly, w),
    ensures
        powmod(2, n, poly) == pmod(exp2(n), poly),
    decreases n,
{
    lemma_poly_bound(poly, w);
    if n == 0 {
        assert(exp2(0) == 1);
    } else {
        lemma_powmod_x((n - 1) as nat, poly, w);
        lemma_pmod_pmul(2, exp2((n - 1) as nat), poly);
        lemma_pmul_exp2(2, (n - 1) as nat);
        assert(exp2(n) == 2 * exp2((n - 1) as nat));
    }
}

/// Multiplying by `x^n mod poly` is stepping `n` digits.
pub proof fn lemma_mul_xn(s: nat, n: nat, poly: nat, w: nat)
    requires
        lfsr_params_ok(poly, w),
    ensures
        mulmod(s, powmod(2, n, poly), poly) == lfsr_state(s, n, poly),
{
    lemma_poly_bound(poly, w);
    lemma_powmod_x(n, poly, w);
    lemma_pmod_pmul(s, exp2(n), poly);
    lemma_pmul_exp2(s, n);
}

/// `poly / x` is the inverse of `x`.
pub proof fn lemma_x_inverse(poly: nat, w: nat)
    requires
        lfsr_params_ok(poly, w),
    ensures
        mulmod(2, lfsr_x_inverse(poly), poly) == 1,
        lfsr_x_inverse(poly) < exp2(w),
{
    lemma_poly_bound(poly, w);
    let h = poly / 2;
    lemma_pmul_exp2(h, 1);
    assert(exp2(1) == 2 * exp2(0));
    lemma_pmul_comm(h, 2);
    assert(pmul(2, h) == 2 * h);
    lemma_pxor_digit(h, 1, 0, 1);
    lemma_pxor_zero(h);
    assert(pxor(poly, 1) == 2 * h);
    lemma_pdivmod_pxor(poly, 1, poly);
    lemma_pmul_one_left(poly);
    lemma_pmod_multiple(0, 1, poly);
    lemma_pxor_zero(poly);
    lemma_bitlen_le(1, 1);
    lemma_pmod_small(1, poly);
    lemma_pxor_zero(1);
}

proof fn lemma_powmod_one(n: nat, poly: nat, w: nat)
    requires
        lfsr_params_ok(poly, w),
    ensures
        powmod(1, n, poly) == 1,
    decreases n,
{
    lemma_poly_bound(poly, w);
    assert(exp2(1) == 2 * exp2(0));
    lemma_bitlen_le(1, 1);
    lemma_pmod_small(1, poly);
    if n > 0 {
        lemma_powmod_one((n - 1) as nat, poly, w);
        lemma_mulmod_one(1, poly);
    }
}

/// Stepping `n` digits forward from `mulmod(s, inv^n)` gives back `s`.
proof fn lemma_back_then_forward(s: nat, n: nat, poly: nat, w: nat)
    requires
        lfsr_params_ok(poly, w),
        s < exp2(w),
    ensures
        lfsr_state(mulmod(s, powmod(lfsr_x_inverse(poly), n, poly), poly), n, poly) == s,
        mulmod(lfsr_state(s, n, poly), powmod(lfsr_x_inverse(poly), n, poly), poly) == s,
{
    lemma_poly_bound(poly, w);
    let inv = lfsr_x_inverse(poly);
    let h = powmod(inv, n, poly);
    let g = powmod(2, n, poly);
    lemma_x_inverse(poly, w);
    lemma_powmod_mul(2, inv, n, poly);
    lemma_powmod_one(n, poly, w);
    lemma_mul_xn(mulmod(s, h, poly), n, poly, w);
    lemma_mulmod_assoc(s, h, g, poly);
    lemma_mulmod_comm(h, g, poly);
    lemma_mulmod_one(s, poly);
    lemma_bitlen_le(s, w);
    lemma_pmod_small(s, poly);
    lemma_mul_xn(s, n, poly, w);
    lemma_mulmod_assoc(s, g, h, poly);
}

/// Jump `n` digits forward without producing output.
pub fn lfsr_skip(s: u128, n: u128, poly: u128, w: u32) -> (r: u128)
    requires
        lfsr_params_ok(poly as nat, w as nat),
        (s as nat) < exp2(w as nat),
    ensures
        r as nat == lfsr_state(s as nat, n as nat, poly as nat),
        (r as nat) < exp2(w as nat),
{
    proof {
        lemma_poly_bound(poly as nat, w as nat);
        lemma_exp2_mono(2, w as nat);
        assert(exp2(2) == 4) by {
            assert(exp2(0) == 1);
            assert(exp2(1) == 2);
        }
        lemma_mul_xn(s as nat, n as nat, poly as nat, w as nat);
    }
    let g = powmod_u128(2, n, poly, w);
    mulmod_u128(s, g, poly, w)
}

/// Jump `n` digits backward: the state from which stepping `n` digits
/// forward leads to `s`.
pub fn lfsr_skip_backwards(s: u128, n: u128, poly: u128, w: u32) -> (r: u128)
    requires
        lfsr_params_ok(poly as nat, w as nat),
        (s as nat) < exp2(w as nat),
    ensures
        lfsr_state(r as nat, n as nat, poly as nat) == s as nat,
        r as nat == mulmod(s as nat, powmod(lfsr_x_inverse(poly as nat), n as nat, poly as nat), poly as nat),
        (r as nat) < exp2(w as nat),
{
    proof {
        lemma_x_inverse(poly as nat, w as nat);
        lemma_back_then_forward(s as nat, n as nat, poly as nat, w as nat);
    }
    let inv: u128 = poly / 2;
    let h = powmod_u128(inv, n, poly, w);
    mulmod_u128(s, h, poly, w)
}

/// Stepping is injective on reduced states: two states that lead to the same
/// state in `n` steps are equal.
pub proof fn lemma_lfsr_state_injective(a: nat, b: nat, n: nat, poly: nat, w: nat)
    requires
        lfsr_params_ok(poly, w),
        a < exp2(w),
        b < exp2(w),
        lfsr_state(a, n, poly) == lfsr_state(b, n, poly),
    ensures
        a == b,
{
    lemma_back_then_forward(a, n, poly, w);
    lemma_back_then_forward(b, n, poly, w);
}

/// Stepping `a` digits and then `b` digits is stepping `a + b` digits.
pub proof fn lemma_lfsr_state_add(s: nat, a: nat, b: nat, poly: nat, w: nat)
    requires
        lfsr_params_ok(poly, w),
    ensures
        lfsr_state(lfsr_state(s, a, poly), b, poly) == lfsr_state(s, a + b, poly),
{
    lemma_poly_bound(poly, w);
    lemma_pmul_exp2(s * exp2(a), b);
    lemma_pmul_exp2(pmod(s * exp2(a), poly), b);
    lemma_pmod_pmul(s * exp2(a), exp2(b), poly);
    lemma_exp2_add(a, b);
    assert(s * exp2(a) * exp2(b) == s * exp2(a + b)) by (nonlinear_arith)
        requires
            exp2(a + b) == exp2(a) * exp2(b),
    ;
}

} // verus!
