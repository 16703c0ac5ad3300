//! Facts about arithmetic modulo a defining polynomial that hold in every
//! field of this crate: multiplying by the generator as a shift and at most
//! one reduction, powers of powers, and the cancellation that division rests
//! on once an element's power `2^w - 1` is known to be one.

use vstd::prelude::*;
use crate::poly::{
    exp2, bitlen, pxor, pmul, pmod, mulmod, powmod, lemma_exp2_pos, lemma_bitlen_le,
    lemma_pmod_small, lemma_mulmod_assoc, lemma_mulmod_comm, lemma_mulmod_one,
    lemma_mulmod_distrib, lemma_powmod_add, lemma_powmod_reduced, lemma_pmul_double_right,
    lemma_pmul_one_right, lemma_pmul_comm, lemma_pxor_comm, lemma_pxor_assoc, lemma_pxor_zero,
    lemma_pxor_self,
};
use crate::arith::lemma_reduce_once;

verus! {

/// `1` is reduced modulo any polynomial of degree at least one.
pub proof fn lemma_pmod_one(m: nat, w: nat)
    requires
        bitlen(m) == w + 1,
        w >= 1,
    ensures
        pmod(1, m) == 1,
{
    lemma_exp2_pos(w);
    assert(exp2(1) == 2 * exp2(0));
    crate::poly::lemma_exp2_mono(1, w);
    lemma_bitlen_le(1, 1);
    lemma_pmod_small(1, m);
}

/// Multiplying a reduced `v` by `x` (the polynomial `2`) is a shift,
/// followed by one subtraction of the modulus when the shift overflows.
pub proof fn lemma_mulmod_two(v: nat, m: nat, w: nat)
    requires
        bitlen(m) == w + 1,
        v < exp2(w),
    ensures
        2 * v < exp2(w) ==> mulmod(2, v, m) == 2 * v,
        2 * v >= exp2(w) ==> mulmod(2, v, m) == pxor(2 * v, m),
        mulmod(2, v, m) < exp2(w),
{
    lemma_pmul_double_right(v, 1);
    lemma_pmul_one_right(v);
    lemma_pmul_comm(2, v);
    assert(exp2(w + 1) == 2 * exp2(w));
    lemma_reduce_once(2 * v, m, w);
}

/// Multiplying a reduced `v` by `x + 1` (the polynomial `3`) adds `v` to
/// the product by `x`.
pub proof fn lemma_mulmod_three(v: nat, m: nat, w: nat)
    requires
        bitlen(m) == w + 1,
        v < exp2(w),
    ensures
        mulmod(3, v, m) == pxor(v, mulmod(2, v, m)),
{
    lemma_exp2_pos(w);
    lemma_mulmod_comm(3, v, m);
    lemma_mulmod_comm(2, v, m);
    assert(pxor(1, 2) == 3) by {
        reveal_with_fuel(pxor, 3);
    }
    lemma_mulmod_distrib(v, 1, 2, m);
    lemma_mulmod_one(v, m);
    lemma_bitlen_le(v, w);
    lemma_pmod_small(v, m);
}

/// `1` to any power is `1`.
pub proof fn lemma_powmod_of_one(e: nat, m: nat, w: nat)
    requires
        bitlen(m) == w + 1,
        w >= 1,
    ensures
        powmod(1, e, m) == 1,
    decreases e,
{
    lemma_pmod_one(m, w);
    if e > 0 {
        lemma_powmod_of_one((e - 1) as nat, m, w);
        lemma_mulmod_one(1, m);
    }
}

/// A power of a power multiplies the exponents.
pub proof fn lemma_powmod_pow(a: nat, i: nat, j: nat, m: nat)
    requires
        m > 0,
    ensures
        powmod(powmod(a, i, m), j, m) == powmod(a, i * j, m),
    decreases j,
{
    if j == 0 {
        assert(i * 0 == 0);
    } else {
        lemma_powmod_pow(a, i, (j - 1) as nat, m);
        assert(i * j == i + i * (j - 1)) by (nonlinear_arith)
            requires
                j >= 1,
        ;
        lemma_powmod_add(a, i, i * (j - 1) as nat, m);
    }
}

/// If `g^n == 1` and `g^k == b`, then `b^n == 1`.
pub proof fn lemma_power_of_generator(g: nat, k: nat, n: nat, m: nat, w: nat)
    requires
        bitlen(m) == w + 1,
        w >= 1,
        powmod(g, n, m) == 1,
    ensures
        powmod(powmod(g, k, m), n, m) == 1,
{
    lemma_powmod_pow(g, k, n, m);
    lemma_powmod_pow(g, n, k, m);
    assert(k * n == n * k) by (nonlinear_arith);
    lemma_powmod_of_one(k, m, w);
}

/// Multiplying by `b` and then by `b^(n - 1)` gives back any reduced `a`,
/// once `b^n == 1`.
pub proof fn lemma_cancel(a: nat, b: nat, n: nat, m: nat, w: nat)
    requires
        bitlen(m) == w + 1,
        w >= 1,
        n >= 1,
        a < exp2(w),
        powmod(b, n, m) == 1,
    ensures
        mulmod(mulmod(a, b, m), powmod(b, (n - 1) as nat, m), m) == a,
{
    lemma_exp2_pos(w);
    lemma_mulmod_assoc(a, b, powmod(b, (n - 1) as nat, m), m);
    assert(powmod(b, n, m) == mulmod(b, powmod(b, (n - 1) as nat, m), m));
    lemma_mulmod_one(a, m);
    lemma_bitlen_le(a, w);
    lemma_pmod_small(a, m);
}

/// Addition of polynomials is commutative and associative, has zero as its
/// identity, and adding the same polynomial twice gives back the first.
pub proof fn lemma_add_laws(a: nat, b: nat, c: nat)
    ensures
        pxor(a, b) == pxor(b, a),
        pxor(a, pxor(b, c)) == pxor(pxor(a, b), c),
        pxor(a, 0) == a,
        pxor(pxor(a, b), b) == a,
{
    lemma_pxor_comm(a, b);
    lemma_pxor_assoc(a, b, c);
    lemma_pxor_zero(a);
    lemma_pxor_assoc(a, b, b);
    lemma_pxor_self(b);
}

/// Squaring is additive in characteristic two: `(a + b)^2 == a^2 + b^2`.
pub proof fn lemma_square_sum(a: nat, b: nat, m: nat)
    requires
        m > 0,
    ensures
        mulmod(pxor(a, b), pxor(a, b), m) == pxor(mulmod(a, a, m), mulmod(b, b, m)),
{
    let s = pxor(a, b);
    crate::poly::lemma_mulmod_distrib(s, a, b, m);
    crate::poly::lemma_mulmod_comm(s, a, m);
    crate::poly::lemma_mulmod_comm(s, b, m);
    crate::poly::lemma_mulmod_distrib(a, a, b, m);
    crate::poly::lemma_mulmod_distrib(b, a, b, m);
    crate::poly::lemma_mulmod_comm(a, b, m);
    let aa = mulmod(a, a, m);
    let ab = mulmod(a, b, m);
    let bb = mulmod(b, b, m);
    // (aa + ab) + (ab + bb) == aa + bb
    crate::poly::lemma_pxor_assoc(aa, ab, pxor(ab, bb));
    crate::poly::lemma_pxor_assoc(ab, ab, bb);
    crate::poly::lemma_pxor_self(ab);
    crate::poly::lemma_pxor_zero(bb);
}

/// Multiplication modulo `m` is commutative and associative, has one as its
/// identity on reduced polynomials, and distributes over addition.
pub proof fn lemma_mul_laws(a: nat, b: nat, c: nat, m: nat, w: nat)
    requires
        bitlen(m) == w + 1,
        a < exp2(w),
    ensures
        mulmod(a, b, m) == mulmod(b, a, m),
        mulmod(a, mulmod(b, c, m), m) == mulmod(mulmod(a, b, m), c, m),
        mulmod(a, 1, m) == a,
        mulmod(a, pxor(b, c), m) == pxor(mulmod(a, b, m), mulmod(a, c, m)),
{
    lemma_exp2_pos(w);
    lemma_mulmod_comm(a, b, m);
    lemma_mulmod_assoc(a, b, c, m);
    lemma_mulmod_one(a, m);
    lemma_bitlen_le(a, w);
    lemma_pmod_small(a, m);
    lemma_mulmod_distrib(a, b, c, m);
}

/// Once `b^(2^w - 1) == 1`, multiplying by `b^(2^w - 2)` undoes multiplying
/// by `b`, and the two multiply to one.
pub proof fn lemma_div_laws(a: nat, b: nat, m: nat, w: nat)
    requires
        bitlen(m) == w + 1,
        w >= 1,
        a < exp2(w),
        powmod(b, (exp2(w) - 1) as nat, m) == 1,
    ensures
        mulmod(mulmod(a, b, m), powmod(b, (exp2(w) - 2) as nat, m), m) == a,
        mulmod(b, powmod(b, (exp2(w) - 2) as nat, m), m) == 1,
{
    crate::poly::lemma_exp2_mono(1, w);
    assert(exp2(1) == 2 * exp2(0));
    let n = (exp2(w) - 1) as nat;
    assert((n - 1) as nat == (exp2(w) - 2) as nat);
    lemma_cancel(a, b, n, m, w);
    assert(powmod(b, n, m) == mulmod(b, powmod(b, (n - 1) as nat, m), m));
}

/// Once `g^n == 1`, exponents of `g` can be taken modulo `n`.
pub proof fn lemma_powmod_period(g: nat, e: nat, n: nat, m: nat, w: nat)
    requires
        bitlen(m) == w + 1,
        w >= 1,
        powmod(g, n, m) == 1,
        e >= n,
    ensures
        powmod(g, e, m) == powmod(g, (e - n) as nat, m),
{
    lemma_exp2_pos(w);
    lemma_powmod_add(g, n, (e - n) as nat, m);
    lemma_mulmod_one(powmod(g, (e - n) as nat, m), m);
    lemma_powmod_reduced(g, (e - n) as nat, m);
}

} // verus!
