//! Why any `k` shares give the secret back: the value at zero of the
//! polynomial through `n >= k` points of a polynomial of degree below `k`
//! is that polynomial's constant term. The interpolating polynomial and
//! the shared one agree at the `n` points, so their difference, of degree
//! below `n`, has `n` roots, and such a polynomial is zero everywhere.
//!
//! Polynomials here have their lowest coefficient first, as in `peval`.

use vstd::prelude::*;
use crate::poly::{
    exp2, bitlen, pxor, pmod, mulmod, powmod, lemma_exp2_pos, lemma_pxor_zero, lemma_pxor_comm,
    lemma_pxor_swap, lemma_pxor_self, lemma_pxor_assoc, lemma_pxor_bound, lemma_pxor_eq_zero,
    lemma_pmul_zero, lemma_pmod_small, lemma_pmod_bound, lemma_mulmod_comm, lemma_mulmod_assoc,
    lemma_mulmod_distrib, lemma_bitlen_le,
};
use crate::raid::fdiv;
use crate::raid::algebra::{field_inverts, modulus_ok, lemma_no_zero_divisors, lemma_mul_one, lemma_distrib_left};
use crate::shamir::{peval, lagrange_num, lagrange_den, interpolate};

verus! {

/// Every entry is below `2^w`.
pub open spec fn fits(f: Seq<nat>, w: nat) -> bool {
    forall|i: int| 0 <= i < f.len() ==> #[trigger] f[i] < exp2(w)
}

/// No two entries are equal.
pub open spec fn distinct(xs: Seq<nat>) -> bool {
    forall|i: int, j: int| 0 <= i < j < xs.len() ==> xs[i] != xs[j]
}

/// `a + b`, entry by entry.
pub open spec fn poly_add(a: Seq<nat>, b: Seq<nat>) -> Seq<nat> {
    Seq::new(a.len(), |i: int| pxor(a[i], b[i]))
}

/// `c * a`, entry by entry.
pub open spec fn poly_scale(a: Seq<nat>, c: nat, m: nat) -> Seq<nat> {
    Seq::new(a.len(), |i: int| mulmod(c, a[i], m))
}

/// `f` times `x + z`.
pub open spec fn mul_lin(f: Seq<nat>, z: nat, m: nat) -> Seq<nat> {
    Seq::new(f.len() + 1, |i: int| pxor(
        if i >= 1 { f[i - 1] } else { 0 },
        if i < f.len() { mulmod(z, f[i], m) } else { 0 },
    ))
}

/// The product of `x + xs[t]` over `t < j` other than `i`, as a polynomial.
pub open spec fn basis(xs: Seq<nat>, i: int, j: int, m: nat) -> Seq<nat>
    decreases j,
{
    if j <= 0 {
        seq![1nat]
    } else if j - 1 == i {
        basis(xs, i, j - 1, m)
    } else {
        mul_lin(basis(xs, i, j - 1, m), xs[j - 1], m)
    }
}

/// The product of `x + xs[t]` over `t < j` other than `i`, as a value.
pub open spec fn basis_at(xs: Seq<nat>, i: int, j: int, x: nat, m: nat) -> nat
    decreases j,
{
    if j <= 0 {
        1
    } else if j - 1 == i {
        basis_at(xs, i, j - 1, x, m)
    } else {
        mulmod(basis_at(xs, i, j - 1, x, m), pxor(x, xs[j - 1]), m)
    }
}

/// The weight of point `i` in the interpolating polynomial: `ys[i]` over
/// the product of `xs[i] + xs[t]`.
pub open spec fn weight(xs: Seq<nat>, ys: Seq<nat>, i: int, m: nat, w: nat) -> nat {
    fdiv(ys[i], lagrange_den(xs, i, xs.len() as int, m), m, w)
}

/// The sum of the first `j` weighted basis polynomials.
pub open spec fn interpolant(xs: Seq<nat>, ys: Seq<nat>, j: int, m: nat, w: nat) -> Seq<nat>
    decreases j,
{
    if j <= 0 {
        Seq::new(xs.len(), |t: int| 0nat)
    } else {
        poly_add(
            interpolant(xs, ys, j - 1, m, w),
            poly_scale(basis(xs, j - 1, xs.len() as int, m), weight(xs, ys, j - 1, m, w), m),
        )
    }
}

/// The value of `interpolant` at `x`.
pub open spec fn interpolant_at(xs: Seq<nat>, ys: Seq<nat>, j: int, x: nat, m: nat, w: nat) -> nat
    decreases j,
{
    if j <= 0 {
        0
    } else {
        pxor(
            interpolant_at(xs, ys, j - 1, x, m, w),
            mulmod(weight(xs, ys, j - 1, m, w), basis_at(xs, j - 1, xs.len() as int, x, m), m),
        )
    }
}

/// The quotient of `f` by `x + z`, from the coefficient at `i` up.
pub open spec fn quot(f: Seq<nat>, z: nat, i: int, m: nat) -> nat
    decreases f.len() - i,
{
    if i >= f.len() - 2 {
        if i == f.len() - 2 { f[f.len() - 1] } else { 0 }
    } else {
        pxor(f[i + 1], mulmod(z, quot(f, z, i + 1, m), m))
    }
}

/// The quotient of `f` by `x + z`.
pub open spec fn quotient(f: Seq<nat>, z: nat, m: nat) -> Seq<nat> {
    Seq::new((f.len() - 1) as nat, |i: int| quot(f, z, i, m))
}

pub proof fn lemma_m_pos(m: nat, w: nat)
    requires
        modulus_ok(m, w),
    ensures
        m > 0,
{
    if m == 0 {
        assert(bitlen(0) == 0);
    }
}

pub proof fn lemma_mulmod_zero(a: nat, m: nat)
    requires
        m > 0,
    ensures
        mulmod(a, 0, m) == 0,
        mulmod(0, a, m) == 0,
{
    lemma_pmul_zero(a);
    assert(bitlen(0) == 0);
    lemma_pmod_small(0, m);
}

pub proof fn lemma_mulmod_fits(a: nat, b: nat, m: nat, w: nat)
    requires
        modulus_ok(m, w),
    ensures
        mulmod(a, b, m) < exp2(w),
{
    lemma_pmod_bound(crate::poly::pmul(a, b), m);
    if pmod(crate::poly::pmul(a, b), m) >= exp2(w) {
        crate::poly::lemma_bitlen_gt(pmod(crate::poly::pmul(a, b), m), w);
    }
}

/// The value of a polynomial with fitting coefficients fits.
pub proof fn lemma_peval_fits(f: Seq<nat>, x: nat, m: nat, w: nat)
    requires
        modulus_ok(m, w),
        fits(f, w),
    ensures
        peval(f, x, m) < exp2(w),
    decreases f.len(),
{
    lemma_exp2_pos(w);
    if f.len() > 0 {
        lemma_mulmod_fits(peval(f.subrange(1, f.len() as int), x, m), x, m, w);
        lemma_pxor_bound(mulmod(peval(f.subrange(1, f.len() as int), x, m), x, m), f[0], w);
    }
}

/// Evaluation is additive.
pub proof fn lemma_peval_add(a: Seq<nat>, b: Seq<nat>, x: nat, m: nat)
    requires
        m > 0,
        a.len() == b.len(),
    ensures
        peval(poly_add(a, b), x, m) == pxor(peval(a, x, m), peval(b, x, m)),
    decreases a.len(),
{
    if a.len() == 0 {
        lemma_pxor_zero(0);
    } else {
        let s = poly_add(a, b);
        let ta = a.subrange(1, a.len() as int);
        let tb = b.subrange(1, b.len() as int);
        assert(s.subrange(1, s.len() as int) =~= poly_add(ta, tb));
        lemma_peval_add(ta, tb, x, m);
        let ea = peval(ta, x, m);
        let eb = peval(tb, x, m);
        lemma_distrib_left(ea, eb, x, m);
        lemma_pxor_swap(mulmod(ea, x, m), mulmod(eb, x, m), a[0], b[0]);
    }
}

/// Evaluation commutes with scaling.
pub proof fn lemma_peval_scale(a: Seq<nat>, c: nat, x: nat, m: nat)
    requires
        m > 0,
    ensures
        peval(poly_scale(a, c, m), x, m) == mulmod(c, peval(a, x, m), m),
    decreases a.len(),
{
    if a.len() == 0 {
        lemma_mulmod_zero(c, m);
    } else {
        let s = poly_scale(a, c, m);
        let ta = a.subrange(1, a.len() as int);
        assert(s.subrange(1, s.len() as int) =~= poly_scale(ta, c, m));
        lemma_peval_scale(ta, c, x, m);
        let ea = peval(ta, x, m);
        lemma_mulmod_assoc(c, ea, x, m);
        lemma_mulmod_distrib(c, mulmod(ea, x, m), a[0], m);
    }
}

/// A zero at the top does not change the value.
pub proof fn lemma_peval_push_zero(f: Seq<nat>, x: nat, m: nat)
    requires
        m > 0,
    ensures
        peval(f.push(0), x, m) == peval(f, x, m),
    decreases f.len(),
{
    let s = f.push(0);
    if f.len() == 0 {
        assert(s.subrange(1, s.len() as int) =~= Seq::<nat>::empty());
        assert(peval(s.subrange(1, s.len() as int), x, m) == 0);
        lemma_mulmod_zero(x, m);
        lemma_pxor_zero(0);
        assert(s[0] == 0);
    } else {
        let tf = f.subrange(1, f.len() as int);
        assert(s.subrange(1, s.len() as int) =~= tf.push(0));
        lemma_peval_push_zero(tf, x, m);
        assert(s[0] == f[0]);
    }
}

/// `f` followed by zeros has the value of `f`.
pub proof fn lemma_peval_pad(f: Seq<nat>, n: nat, x: nat, m: nat)
    requires
        m > 0,
        f.len() <= n,
    ensures
        peval(f + Seq::new((n - f.len()) as nat, |t: int| 0nat), x, m) == peval(f, x, m),
    decreases n - f.len(),
{
    let p = f + Seq::new((n - f.len()) as nat, |t: int| 0nat);
    if f.len() < n {
        let p1 = f.push(0);
        assert(p =~= p1 + Seq::new((n - p1.len()) as nat, |t: int| 0nat));
        lemma_peval_pad(p1, n, x, m);
        lemma_peval_push_zero(f, x, m);
    } else {
        assert(p =~= f);
    }
}

/// The value at zero is the constant term.
pub proof fn lemma_peval_zero(f: Seq<nat>, m: nat)
    requires
        m > 0,
        f.len() >= 1,
    ensures
        peval(f, 0, m) == f[0],
{
    lemma_mulmod_zero(peval(f.subrange(1, f.len() as int), 0, m), m);
    lemma_pxor_zero(f[0]);
}

/// `x` times `f`: one zero at the bottom.
pub proof fn lemma_peval_shift(f: Seq<nat>, x: nat, m: nat)
    ensures
        peval(seq![0nat] + f, x, m) == mulmod(peval(f, x, m), x, m),
{
    let s = seq![0nat] + f;
    assert(s.subrange(1, s.len() as int) =~= f);
    lemma_pxor_zero(mulmod(peval(f, x, m), x, m));
}

/// Multiplying by `x + z` multiplies the value by `x + z`.
pub proof fn lemma_peval_mul_lin(f: Seq<nat>, z: nat, x: nat, m: nat)
    requires
        m > 0,
    ensures
        peval(mul_lin(f, z, m), x, m) == mulmod(peval(f, x, m), pxor(x, z), m),
{
    let a = seq![0nat] + f;
    let b = poly_scale(f.push(0), z, m);
    lemma_mulmod_zero(z, m);
    assert(mul_lin(f, z, m) =~= poly_add(a, b));
    lemma_peval_add(a, b, x, m);
    lemma_peval_shift(f, x, m);
    lemma_peval_scale(f.push(0), z, x, m);
    lemma_peval_push_zero(f, x, m);
    let e = peval(f, x, m);
    lemma_mulmod_comm(z, e, m);
    lemma_mulmod_distrib(e, x, z, m);
}

/// The basis polynomial evaluates to the product it stands for.
pub proof fn lemma_basis_value(xs: Seq<nat>, i: int, j: int, x: nat, m: nat)
    requires
        m > 0,
        0 <= j <= xs.len(),
    ensures
        peval(basis(xs, i, j, m), x, m) == basis_at(xs, i, j, x, m),
        basis(xs, i, j, m).len() == 1 + j - (if 0 <= i < j { 1int } else { 0int }),
    decreases j,
{
    if j <= 0 {
        let s = seq![1nat];
        assert(s.subrange(1, 1) =~= Seq::<nat>::empty());
        assert(peval(s.subrange(1, 1), x, m) == 0);
        lemma_mulmod_zero(x, m);
        lemma_pxor_zero(1);
        assert(basis(xs, i, j, m) == s);
    } else if j - 1 == i {
        lemma_basis_value(xs, i, j - 1, x, m);
    } else {
        lemma_basis_value(xs, i, j - 1, x, m);
        lemma_peval_mul_lin(basis(xs, i, j - 1, m), xs[j - 1], x, m);
    }
}

/// At zero the product is the numerator of the Lagrange weight.
proof fn lemma_basis_at_zero(xs: Seq<nat>, i: int, j: int, m: nat)
    ensures
        basis_at(xs, i, j, 0, m) == lagrange_num(xs, i, j, m),
    decreases j,
{
    if j > 0 {
        lemma_basis_at_zero(xs, i, j - 1, m);
        lemma_pxor_zero(xs[j - 1]);
    }
}

/// At its own point the product is the denominator of the Lagrange weight.
proof fn lemma_basis_at_own(xs: Seq<nat>, i: int, j: int, m: nat)
    ensures
        basis_at(xs, i, j, xs[i], m) == lagrange_den(xs, i, j, m),
    decreases j,
{
    if j > 0 {
        lemma_basis_at_own(xs, i, j - 1, m);
    }
}

/// At another of the points the product is zero.
proof fn lemma_basis_at_other(xs: Seq<nat>, i: int, t: int, j: int, m: nat)
    requires
        m > 0,
        0 <= t < j,
        t != i,
    ensures
        basis_at(xs, i, j, xs[t], m) == 0,
    decreases j,
{
    if j - 1 == t {
        lemma_pxor_self(xs[t]);
        lemma_mulmod_zero(basis_at(xs, i, j - 1, xs[t], m), m);
    } else if j - 1 == i {
        lemma_basis_at_other(xs, i, t, j - 1, m);
    } else {
        lemma_basis_at_other(xs, i, t, j - 1, m);
        lemma_mulmod_zero(pxor(xs[t], xs[j - 1]), m);
    }
}

/// A product of non-zero field elements is non-zero and fits.
proof fn lemma_basis_at_nonzero(xs: Seq<nat>, i: int, j: int, m: nat, w: nat)
    requires
        modulus_ok(m, w),
        field_inverts(m, w),
        0 <= i < xs.len(),
        j <= xs.len(),
        fits(xs, w),
        distinct(xs),
    ensures
        0 < basis_at(xs, i, j, xs[i], m) < exp2(w),
    decreases j,
{
    lemma_exp2_pos(w);
    if j <= 0 {
        crate::poly::lemma_exp2_mono(1, w);
        assert(exp2(1) == 2 * exp2(0));
    } else if j - 1 == i {
        lemma_basis_at_nonzero(xs, i, j - 1, m, w);
    } else {
        lemma_basis_at_nonzero(xs, i, j - 1, m, w);
        let d = pxor(xs[i], xs[j - 1]);
        lemma_pxor_bound(xs[i], xs[j - 1], w);
        if d == 0 {
            lemma_pxor_eq_zero(xs[i], xs[j - 1]);
        }
        lemma_no_zero_divisors(basis_at(xs, i, j - 1, xs[i], m), d, m, w);
        lemma_mulmod_fits(basis_at(xs, i, j - 1, xs[i], m), d, m, w);
    }
}

/// `(y / d) * d == y` for non-zero `d`.
proof fn lemma_div_then_mul(y: nat, d: nat, m: nat, w: nat)
    requires
        modulus_ok(m, w),
        field_inverts(m, w),
        y < exp2(w),
        0 < d < exp2(w),
    ensures
        mulmod(fdiv(y, d, m, w), d, m) == y,
{
    lemma_m_pos(m, w);
    let inv = powmod(d, (exp2(w) - 2) as nat, m);
    assert(powmod(d, (exp2(w) - 1) as nat, m) == 1);
    crate::field::lemma_div_laws(y, d, m, w);
    lemma_mulmod_assoc(y, inv, d, m);
    lemma_mulmod_comm(inv, d, m);
    lemma_mul_one(y, m, w);
}

/// The interpolant evaluates to the sum of the weighted products.
proof fn lemma_interpolant_value(xs: Seq<nat>, ys: Seq<nat>, j: int, x: nat, m: nat, w: nat)
    requires
        m > 0,
        0 <= j <= xs.len(),
    ensures
        interpolant(xs, ys, j, m, w).len() == xs.len(),
        peval(interpolant(xs, ys, j, m, w), x, m) == interpolant_at(xs, ys, j, x, m, w),
    decreases j,
{
    let n = xs.len() as int;
    if j <= 0 {
        let z = Seq::new(xs.len(), |t: int| 0nat);
        assert(z =~= poly_scale(z, 0, m)) by {
            assert forall|t: int| 0 <= t < z.len() implies z[t] == mulmod(0, z[t], m) by {
                lemma_mulmod_zero(0, m);
            }
        }
        lemma_peval_scale(z, 0, x, m);
        lemma_mulmod_zero(peval(z, x, m), m);
    } else {
        lemma_interpolant_value(xs, ys, j - 1, x, m, w);
        let b = basis(xs, j - 1, n, m);
        lemma_basis_value(xs, j - 1, n, x, m);
        let c = weight(xs, ys, j - 1, m, w);
        lemma_peval_add(interpolant(xs, ys, j - 1, m, w), poly_scale(b, c, m), x, m);
        lemma_peval_scale(b, c, x, m);
    }
}

/// At zero the interpolant gives what `interpolate` computes.
proof fn lemma_interpolant_at_zero(xs: Seq<nat>, ys: Seq<nat>, j: int, m: nat, w: nat)
    requires
        m > 0,
    ensures
        interpolant_at(xs, ys, j, 0, m, w) == interpolate(xs, ys, j, m, w),
    decreases j,
{
    if j > 0 {
        let i = j - 1;
        let n = xs.len() as int;
        lemma_interpolant_at_zero(xs, ys, j - 1, m, w);
        lemma_basis_at_zero(xs, i, n, m);
        let num = lagrange_num(xs, i, n, m);
        let den = lagrange_den(xs, i, n, m);
        let inv = powmod(den, (exp2(w) - 2) as nat, m);
        // (y * inv) * num == (num * inv) * y
        lemma_mulmod_assoc(ys[i], inv, num, m);
        lemma_mulmod_comm(inv, num, m);
        lemma_mulmod_assoc(ys[i], num, inv, m);
        lemma_mulmod_comm(ys[i], num, m);
        lemma_mulmod_assoc(num, ys[i], inv, m);
        lemma_mulmod_comm(ys[i], inv, m);
        lemma_mulmod_assoc(num, inv, ys[i], m);
    }
}

/// At point `t` the interpolant gives `ys[t]`, once it holds point `t`.
proof fn lemma_interpolant_at_point(xs: Seq<nat>, ys: Seq<nat>, j: int, t: int, m: nat, w: nat)
    requires
        modulus_ok(m, w),
        field_inverts(m, w),
        fits(xs, w),
        fits(ys, w),
        distinct(xs),
        ys.len() == xs.len(),
        0 <= j <= xs.len(),
        0 <= t < xs.len(),
    ensures
        interpolant_at(xs, ys, j, xs[t], m, w) == (if t < j { ys[t] } else { 0 }),
    decreases j,
{
    lemma_m_pos(m, w);
    if j > 0 {
        let i = j - 1;
        let n = xs.len() as int;
        lemma_interpolant_at_point(xs, ys, j - 1, t, m, w);
        let c = weight(xs, ys, i, m, w);
        if i == t {
            lemma_basis_at_own(xs, t, n, m);
            lemma_basis_at_nonzero(xs, t, n, m, w);
            lemma_div_then_mul(ys[t], lagrange_den(xs, t, n, m), m, w);
            lemma_pxor_zero(ys[t]);
        } else {
            lemma_basis_at_other(xs, i, t, n, m);
            lemma_mulmod_zero(c, m);
            lemma_pxor_zero(interpolant_at(xs, ys, j - 1, xs[t], m, w));
        }
    }
}

/// Dividing by `x + z` leaves the value at `z` as remainder.
#[verifier::rlimit(40)]
pub proof fn lemma_quotient(f: Seq<nat>, z: nat, x: nat, m: nat)
    requires
        m > 0,
        f.len() >= 1,
    ensures
        peval(f, x, m) == pxor(mulmod(peval(quotient(f, z, m), x, m), pxor(x, z), m), peval(f, z, m)),
        f == poly_add(mul_lin(quotient(f, z, m), z, m), Seq::new(f.len(), |t: int| if t == 0 { peval(f, z, m) } else { 0nat })),
{
    let q = quotient(f, z, m);
    let n = f.len();
    let r = pxor(f[0], mulmod(z, if n >= 2 { q[0] } else { 0 }, m));
    let lifted = mul_lin(q, z, m);
    let rem = Seq::new(n, |t: int| if t == 0 { r } else { 0nat });
    lemma_mulmod_zero(z, m);
    assert forall|t: int| 0 <= t < n implies #[trigger] f[t] == poly_add(lifted, rem)[t] by {
        if t == 0 {
            let a = mulmod(z, if n >= 2 { q[0] } else { 0 }, m);
            lemma_pxor_zero(a);
            lemma_pxor_comm(f[0], a);
            lemma_pxor_assoc(a, a, f[0]);
            lemma_pxor_self(a);
            lemma_pxor_zero(f[0]);
        } else if t == n - 1 {
            lemma_pxor_zero(f[t]);
            lemma_pxor_zero(pxor(f[t], 0));
        } else {
            let a = mulmod(z, q[t], m);
            lemma_pxor_assoc(f[t], a, a);
            lemma_pxor_self(a);
            lemma_pxor_zero(f[t]);
            lemma_pxor_zero(pxor(pxor(f[t], a), a));
        }
    }
    assert(f =~= poly_add(lifted, rem));
    // value of the remainder polynomial: r
    let tail = rem.subrange(1, n as int);
    let zeros = Seq::new((n - 1) as nat, |t: int| 0nat);
    assert(tail =~= Seq::<nat>::empty() + zeros);
    lemma_peval_pad(Seq::<nat>::empty(), (n - 1) as nat, x, m);
    lemma_peval_pad(Seq::<nat>::empty(), (n - 1) as nat, z, m);
    lemma_mulmod_zero(x, m);
    lemma_mulmod_zero(z, m);
    lemma_pxor_zero(r);
    lemma_peval_add(lifted, rem, x, m);
    lemma_peval_add(lifted, rem, z, m);
    lemma_peval_mul_lin(q, z, x, m);
    lemma_peval_mul_lin(q, z, z, m);
    lemma_pxor_self(z);
    lemma_mulmod_zero(peval(q, z, m), m);
    lemma_pxor_zero(r);
}

/// The quotient of fitting coefficients fits.
pub proof fn lemma_quotient_fits(f: Seq<nat>, z: nat, i: int, m: nat, w: nat)
    requires
        modulus_ok(m, w),
        fits(f, w),
        f.len() >= 1,
        0 <= i,
    ensures
        quot(f, z, i, m) < exp2(w),
    decreases f.len() - i,
{
    lemma_exp2_pos(w);
    if i < f.len() - 2 {
        lemma_quotient_fits(f, z, i + 1, m, w);
        lemma_mulmod_fits(z, quot(f, z, i + 1, m), m, w);
        lemma_pxor_bound(f[i + 1], mulmod(z, quot(f, z, i + 1, m), m), w);
    }
}

/// A polynomial with `n` coefficients and `n` distinct roots is zero
/// everywhere.
#[verifier::rlimit(40)]
pub proof fn lemma_roots(f: Seq<nat>, zs: Seq<nat>, m: nat, w: nat)
    requires
        modulus_ok(m, w),
        field_inverts(m, w),
        fits(f, w),
        fits(zs, w),
        distinct(zs),
        zs.len() == f.len(),
        forall|t: int| 0 <= t < zs.len() ==> peval(f, #[trigger] zs[t], m) == 0,
    ensures
        forall|y: nat| #[trigger] peval(f, y, m) == 0,
    decreases f.len(),
{
    lemma_m_pos(m, w);
    if f.len() > 0 {
        let n = f.len();
        let z = zs[n - 1];
        let q = quotient(f, z, m);
        let zs1 = zs.subrange(0, n - 1);
        assert forall|i: int| 0 <= i < q.len() implies #[trigger] q[i] < exp2(w) by {
            lemma_quotient_fits(f, z, i, m, w);
        }
        assert forall|t: int| 0 <= t < zs1.len() implies peval(q, #[trigger] zs1[t], m) == 0 by {
            let x = zs[t];
            lemma_quotient(f, z, x, m);
            assert(peval(f, z, m) == 0);
            assert(peval(f, x, m) == 0);
            let d = pxor(x, z);
            lemma_pxor_bound(x, z, w);
            if d == 0 {
                lemma_pxor_eq_zero(x, z);
            }
            lemma_peval_fits(q, x, m, w);
            lemma_pxor_zero(mulmod(peval(q, x, m), d, m));
            if peval(q, x, m) != 0 {
                lemma_no_zero_divisors(peval(q, x, m), d, m, w);
            }
        }
        lemma_roots(q, zs1, m, w);
        assert forall|y: nat| #[trigger] peval(f, y, m) == 0 by {
            lemma_quotient(f, z, y, m);
            assert(peval(f, z, m) == 0);
            assert(peval(q, y, m) == 0);
            lemma_mulmod_zero(pxor(y, z), m);
            lemma_pxor_zero(0);
        }
    }
}

/// The value at zero of the polynomial through `n` distinct points of a
/// polynomial `c` with at most `n` coefficients is `c`'s constant term.
#[verifier::rlimit(40)]
pub proof fn lemma_interpolate_poly(xs: Seq<nat>, c: Seq<nat>, m: nat, w: nat)
    requires
        modulus_ok(m, w),
        field_inverts(m, w),
        fits(xs, w),
        distinct(xs),
        fits(c, w),
        1 <= c.len() <= xs.len(),
    ensures
        interpolate(xs, Seq::new(xs.len(), |t: int| peval(c, xs[t], m)), xs.len() as int, m, w) == c[0],
{
    lemma_m_pos(m, w);
    let n = xs.len();
    let ys = Seq::new(n, |t: int| peval(c, xs[t], m));
    assert forall|t: int| 0 <= t < n implies #[trigger] ys[t] < exp2(w) by {
        lemma_peval_fits(c, xs[t], m, w);
    }
    let r = interpolant(xs, ys, n as int, m, w);
    let p = c + Seq::new((n - c.len()) as nat, |t: int| 0nat);
    lemma_interpolant_value(xs, ys, n as int, 0, m, w);
    let d = poly_add(p, r);
    // the difference vanishes at every point
    assert forall|t: int| 0 <= t < n implies peval(d, #[trigger] xs[t], m) == 0 by {
        lemma_peval_add(p, r, xs[t], m);
        lemma_peval_pad(c, n, xs[t], m);
        lemma_interpolant_value(xs, ys, n as int, xs[t], m, w);
        lemma_interpolant_at_point(xs, ys, n as int, t, m, w);
        lemma_pxor_self(ys[t]);
    }
    // its coefficients fit
    assert forall|i: int| 0 <= i < d.len() implies #[trigger] d[i] < exp2(w) by {
        lemma_exp2_pos(w);
        interpolant_fits(xs, ys, n as int, m, w);
        lemma_pxor_bound(p[i], r[i], w);
    }
    lemma_roots(d, xs, m, w);
    assert(peval(d, 0, m) == 0);
    lemma_peval_add(p, r, 0, m);
    lemma_peval_pad(c, n, 0, m);
    lemma_peval_zero(c, m);
    lemma_interpolant_at_zero(xs, ys, n as int, m, w);
    lemma_pxor_eq_zero(peval(p, 0, m), peval(r, 0, m));
}

/// The interpolant's coefficients fit.
proof fn interpolant_fits(xs: Seq<nat>, ys: Seq<nat>, j: int, m: nat, w: nat)
    requires
        modulus_ok(m, w),
        0 <= j <= xs.len(),
    ensures
        fits(interpolant(xs, ys, j, m, w), w),
        interpolant(xs, ys, j, m, w).len() == xs.len(),
    decreases j,
{
    lemma_m_pos(m, w);
    lemma_exp2_pos(w);
    if j > 0 {
        interpolant_fits(xs, ys, j - 1, m, w);
        let n = xs.len() as int;
        lemma_basis_value(xs, j - 1, n, 0, m);
        let prev = interpolant(xs, ys, j - 1, m, w);
        let s = poly_scale(basis(xs, j - 1, n, m), weight(xs, ys, j - 1, m, w), m);
        assert forall|i: int| 0 <= i < n implies #[trigger] poly_add(prev, s)[i] < exp2(w) by {
            lemma_mulmod_fits(weight(xs, ys, j - 1, m, w), basis(xs, j - 1, n, m)[i], m, w);
            lemma_pxor_bound(prev[i], s[i], w);
        }
    }
}

} // verus!
