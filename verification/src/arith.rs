//! Executable polynomial arithmetic on 128-bit words: degree, long division,
//! and multiplication and exponentiation modulo a polynomial.

use vstd::prelude::*;
use vstd::arithmetic::div_mod::{lemma_div_denominator, lemma_fundamental_div_mod_converse};
use crate::poly::{
    exp2, bitlen, pxor, pmul, pdiv, pmod, pdivmod, mulmod, powmod, lemma_exp2_pos,
    lemma_exp2_add, lemma_exp2_mono, lemma_bitlen_bound, lemma_bitlen_le, lemma_bitlen_gt,
    lemma_bitlen_exact, lemma_bitlen_shift, lemma_pxor_zero, lemma_pxor_assoc, lemma_pxor_comm,
    lemma_pxor_cancel, lemma_pxor_bound, lemma_divmod_step, lemma_pmod_small, lemma_pmod_bound,
    lemma_pdivmod_unique, lemma_pdivmod_pxor, lemma_pmul_unfold, lemma_pmul_zero,
    lemma_pmul_one_left, lemma_pmul_exp2, lemma_pmod_pmul, lemma_mulmod_assoc, lemma_mulmod_one,
    lemma_powmod_square, lemma_powmod_reduced, rev,
};
use crate::bits::{lemma_xor, lemma_shr, lemma_shl, lemma_exp2_values};

verus! {

/// The number of binary digits of `x`.
pub fn bitlen_u128(x: u128) -> (n: u32)
    ensures
        n as nat == bitlen(x as nat),
        n <= 128,
{
    let mut n: u32 = 0;
    let mut y: u128 = x;
    proof {
        lemma_exp2_values();
        lemma_bitlen_le(x as nat, 128);
    }
    while y > 0
        invariant
            n as nat + bitlen(y as nat) == bitlen(x as nat),
            bitlen(x as nat) <= 128,
        decreases y,
    {
        y = y / 2;
        n = n + 1;
    }
    n
}

/// Polynomial long division: `(a / m, a % m)`.
pub fn pdivmod_u128(a: u128, m: u128) -> (r: (u128, u128))
    requires
        m > 0,
    ensures
        r.0 as nat == pdiv(a as nat, m as nat),
        r.1 as nat == pmod(a as nat, m as nat),
{
    let bm = bitlen_u128(m);
    let ba = bitlen_u128(a);
    let mut q: u128 = 0;
    let mut r: u128 = a;
    let mut i: u32 = ba;
    proof {
        lemma_bitlen_bound(m as nat);
        lemma_pxor_zero(pdiv(a as nat, m as nat));
        lemma_exp2_values();
    }
    while i >= bm
        invariant
            bm as nat == bitlen(m as nat),
            m > 0,
            bm >= 1,
            i <= 128,
            bitlen(r as nat) <= i,
            pdiv(a as nat, m as nat) == pxor(q as nat, pdiv(r as nat, m as nat)),
            pmod(a as nat, m as nat) == pmod(r as nat, m as nat),
        decreases i,
    {
        let ghost rr = r as nat;
        let j: u32 = i - 1;
        proof {
            lemma_shr(r, j);
            lemma_bitlen_bound(rr);
            lemma_exp2_mono(bitlen(rr), i as nat);
            lemma_exp2_pos(j as nat);
            assert(exp2(i as nat) == 2 * exp2(j as nat));
        }
        let top: u128 = (r >> j) % 2;
        if top == 1 {
            let s: u32 = i - bm;
            proof {
                if rr < exp2(j as nat) {
                    lemma_fundamental_div_mod_converse(rr as int, exp2(j as nat) as int, 0, rr as int);
                }
                lemma_bitlen_gt(rr, j as nat);
                assert(bitlen(rr) == i);
                lemma_divmod_step(rr, m as nat);
                lemma_bitlen_shift(m as nat, s as nat);
                lemma_bitlen_bound(m as nat * exp2(s as nat));
                lemma_exp2_mono(i as nat, 128);
                lemma_shl(m, s);
                lemma_exp2_strict(s as nat);
                lemma_shl(1, s);
            }
            let ms: u128 = m << s;
            let one_s: u128 = 1u128 << s;
            proof {
                lemma_xor(r, ms);
                lemma_xor(q, one_s);
                let r2 = pxor(rr, m as nat * exp2(s as nat));
                assert(pdivmod(rr, m as nat) == (pxor(pdiv(r2, m as nat), exp2(s as nat)), pmod(r2, m as nat)));
                lemma_pxor_comm(pdiv(r2, m as nat), exp2(s as nat));
                lemma_pxor_assoc(q as nat, exp2(s as nat), pdiv(r2, m as nat));
            }
            r = r ^ ms;
            q = q ^ one_s;
        } else {
            proof {
                if rr >= exp2(j as nat) {
                    lemma_fundamental_div_mod_converse(rr as int, exp2(j as nat) as int, 1, rr - exp2(j as nat));
                }
                lemma_bitlen_le(rr, j as nat);
            }
        }
        i = j;
    }
    proof {
        lemma_pmod_small(r as nat, m as nat);
        lemma_pxor_zero(q as nat);
    }
    (q, r)
}

proof fn lemma_exp2_strict(s: nat)
    requires
        s < 128,
    ensures
        1 * exp2(s) < exp2(128),
{
    crate::poly::lemma_exp2_strict_mono(s, 128);
}

/// A polynomial of at most `w + 1` digits is reduced modulo `m` (with `w + 1`
/// digits) by at most one subtraction of `m`.
pub proof fn lemma_reduce_once(t: nat, m: nat, w: nat)
    requires
        bitlen(m) == w + 1,
        t < exp2(w + 1),
    ensures
        t < exp2(w) ==> pmod(t, m) == t && pdiv(t, m) == 0,
        t >= exp2(w) ==> pmod(t, m) == pxor(t, m) && pdiv(t, m) == 1,
        pmod(t, m) < exp2(w),
{
    lemma_exp2_pos(w);
    assert(exp2(w + 1) == 2 * exp2(w));
    if t < exp2(w) {
        lemma_bitlen_le(t, w);
        lemma_pmod_small(t, m);
    } else {
        lemma_bitlen_exact(t, w + 1);
        lemma_divmod_step(t, m);
        assert(exp2(0) == 1);
        assert(m * exp2(0) == m);
        lemma_pmul_one_left(m);
        lemma_pxor_cancel(t, m);
        lemma_pxor_comm(pxor(t, m), m);
        lemma_pxor_assoc(m, t, m);
        lemma_pdivmod_unique(t, m, 1, pxor(t, m));
    }
    lemma_pmod_bound(t, m);
    assert((bitlen(m) - 1) as nat == w);
}

/// Doubling a reduced polynomial and reducing again: at most one subtraction
/// of the modulus.
proof fn lemma_double_reduce(x: nat, m: nat, w: nat)
    requires
        bitlen(m) == w + 1,
        x < exp2(w),
    ensures
        2 * x < exp2(w) ==> pmod(2 * x, m) == 2 * x,
        2 * x >= exp2(w) ==> pmod(2 * x, m) == pxor(2 * x, m),
        pmod(2 * x, m) < exp2(w),
{
    lemma_exp2_pos(w);
    assert(exp2(w + 1) == 2 * exp2(w));
    if 2 * x < exp2(w) {
        lemma_bitlen_le(2 * x, w);
        lemma_pmod_small(2 * x, m);
    } else {
        lemma_bitlen_exact(2 * x, w + 1);
        lemma_divmod_step(2 * x, m);
        assert(exp2(0) == 1);
        assert(m * exp2(0) == m);
        lemma_pmul_one_left(m);
        lemma_pxor_cancel(2 * x, m);
        lemma_pxor_comm(pxor(2 * x, m), m);
        lemma_pxor_assoc(m, 2 * x, m);
        lemma_pdivmod_unique(2 * x, m, 1, pxor(2 * x, m));
    }
    lemma_pmod_bound(2 * x, m);
    assert((bitlen(m) - 1) as nat == w);
}

/// The product `a * b` modulo `m`, where `m` has `w + 1` digits and the
/// factors are already reduced. Computed digit by digit of `b`, reducing
/// after every doubling.
pub fn mulmod_u128(a: u128, b: u128, m: u128, w: u32) -> (r: u128)
    requires
        bitlen(m as nat) == w + 1,
        w <= 64,
        a < exp2(w as nat),
        b < exp2(w as nat),
    ensures
        r as nat == mulmod(a as nat, b as nat, m as nat),
        (r as nat) < exp2(w as nat),
{
    let mut acc: u128 = 0;
    let mut i: u32 = w;
    let ghost mm = m as nat;
    proof {
        lemma_exp2_values();
        lemma_bitlen_bound(mm);
        lemma_exp2_pos(w as nat);
        lemma_fundamental_div_mod_converse(b as int, exp2(w as nat) as int, 0, b as int);
        lemma_pmul_zero(a as nat);
        lemma_pmod_small(0, mm);
        lemma_exp2_mono(w as nat, 64);
    }
    while i > 0
        invariant
            bitlen(m as nat) == w + 1,
            w <= 64,
            i <= w,
            a < exp2(w as nat),
            b < exp2(w as nat),
            exp2(w as nat) <= exp2(64),
            mm == m as nat,
            acc as nat == mulmod(a as nat, b as nat / exp2(i as nat), m as nat),
            (acc as nat) < exp2(w as nat),
        decreases i,
    {
        let ghost old_i = i;
        let ghost old_acc = acc as nat;
        i = i - 1;
        let q: u128 = b >> i;
        let bit: u128 = q % 2;
        proof {
            lemma_exp2_values();
            lemma_shr(b, i);
            lemma_exp2_pos(i as nat);
            lemma_div_denominator(b as int, exp2(i as nat) as int, 2);
            assert(exp2(old_i as nat) == 2 * exp2(i as nat));
            lemma_shl(acc, 1);
        }
        let mut d: u128 = acc << 1u32;
        let limit: u128 = 1u128 << w;
        proof {
            lemma_shl(1, w);
            lemma_double_reduce(old_acc, mm, w as nat);
        }
        if d >= limit {
            proof {
                lemma_xor(d, m);
            }
            d = d ^ m;
        }
        let term: u128 = if bit == 1 { a } else { 0 };
        proof {
            // d == pmod(2 * old_acc) == pmod(2 * pmul(a, q / 2))
            let y = pmul(a as nat, q as nat / 2);
            lemma_pmul_exp2(y, 1);
            lemma_pmul_exp2(pmod(y, mm), 1);
            assert(exp2(1) == 2);
            lemma_pmod_pmul(y, 2, mm);
            assert(d as nat == pmod(2 * y, mm));
            lemma_pmul_unfold(a as nat, q as nat);
            lemma_pdivmod_pxor(term as nat, 2 * y, mm);
            lemma_bitlen_le(term as nat, w as nat);
            lemma_pmod_small(term as nat, mm);
            lemma_xor(term, d);
            lemma_pxor_bound(term as nat, d as nat, w as nat);
        }
        acc = term ^ d;
    }
    proof {
        assert(exp2(i as nat) == 1);
        assert(b as nat / 1 == b as nat);
    }
    acc
}

/// `a` raised to the power `e` modulo `m` (with `w + 1` digits), by repeated
/// squaring.
pub fn powmod_u128(a: u128, e: u128, m: u128, w: u32) -> (r: u128)
    requires
        bitlen(m as nat) == w + 1,
        1 <= w <= 64,
        a < exp2(w as nat),
    ensures
        r as nat == powmod(a as nat, e as nat, m as nat),
        (r as nat) < exp2(w as nat),
{
    let ghost mm = m as nat;
    proof {
        lemma_bitlen_bound(mm);
        lemma_exp2_pos(w as nat);
        lemma_bitlen_le(1, w as nat + 1);
    }
    let mut result: u128 = 1;
    let mut base: u128 = a;
    let mut k: u128 = e;
    proof {
        lemma_exp2_mono(1, w as nat);
        assert(exp2(1) == 2 * exp2(0));
        lemma_bitlen_le(1, 1);
        lemma_pmod_small(1, mm);
        lemma_bitlen_le(a as nat, w as nat);
        lemma_pmod_small(a as nat, mm);
        lemma_mulmod_one(powmod(a as nat, e as nat, mm), mm);
        lemma_powmod_reduced(a as nat, e as nat, mm);
        crate::poly::lemma_mulmod_comm(result as nat, powmod(a as nat, e as nat, mm), mm);
    }
    while k > 0
        invariant
            bitlen(m as nat) == w + 1,
            1 <= w <= 64,
            (result as nat) < exp2(w as nat),
            (base as nat) < exp2(w as nat),
            mm == m as nat,
            mulmod(result as nat, powmod(base as nat, k as nat, m as nat), m as nat)
                == powmod(a as nat, e as nat, m as nat),
        decreases k,
    {
        let ghost kk = k as nat;
        let ghost half = kk / 2;
        proof {
            lemma_powmod_square(base as nat, half, mm);
            if kk % 2 == 1 {
                assert(kk == 2 * half + 1);
                assert(powmod(base as nat, kk, mm) == mulmod(base as nat, powmod(base as nat, 2 * half, mm), mm));
                lemma_mulmod_assoc(result as nat, base as nat, powmod(base as nat, 2 * half, mm), mm);
            } else {
                assert(kk == 2 * half);
            }
        }
        if k % 2 == 1 {
            result = mulmod_u128(result, base, m, w);
        }
        base = mulmod_u128(base, base, m, w);
        k = k / 2;
    }
    proof {
        lemma_mulmod_one(result as nat, mm);
        lemma_bitlen_le(result as nat, w as nat);
        lemma_pmod_small(result as nat, mm);
    }
    result
}

/// The low `n` digits of `x` in reverse order.
pub fn rev_u128(x: u128, n: u32) -> (r: u128)
    requires
        n <= 128,
    ensures
        r as nat == rev(x as nat, n as nat),
        (r as nat) < exp2(n as nat),
{
    let mut r: u128 = 0;
    let mut y: u128 = x;
    let mut k: u32 = 0;
    proof {
        lemma_exp2_values();
        assert(exp2(0) == 1);
        assert(x as nat / 1 == x as nat);
    }
    while k < n
        invariant
            k <= n <= 128,
            rev(x as nat, n as nat) == (r as nat) * exp2((n - k) as nat) + rev(y as nat, (n - k) as nat),
            (r as nat) < exp2(k as nat),
        decreases n - k,
    {
        let ghost e = exp2((n - k - 1) as nat);
        proof {
            lemma_exp2_values();
            assert(exp2((n - k) as nat) == 2 * e);
            assert(exp2((k + 1) as nat) == 2 * exp2(k as nat));
            lemma_exp2_mono((k + 1) as nat, 128);
            assert(rev(y as nat, (n - k) as nat) == rev(y as nat / 2, (n - k - 1) as nat) + (y as nat % 2) * e);
            assert((r as nat) * (2 * e) + (y as nat % 2) * e == (2 * (r as nat) + y as nat % 2) * e)
                by (nonlinear_arith);
        }
        r = 2 * r + y % 2;
        y = y / 2;
        k = k + 1;
    }
    proof {
        assert(exp2((n - k) as nat) == 1);
        assert(rev(y as nat, (n - k) as nat) == 0);
        assert((r as nat) * exp2((n - k) as nat) == r as nat) by (nonlinear_arith)
            requires
                exp2((n - k) as nat) == 1,
        ;
    }
    r
}

} // verus!
