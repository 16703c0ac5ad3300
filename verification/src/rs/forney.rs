//! Why the erasure decoder finds the error magnitudes (Forney's
//! algorithm). With the erasure locator `L(x) = prod_s (1 + X_s x)` over
//! the listed positions `s`, its formal derivative `L'`, and the evaluator
//! `O(x) = S(x) L(x) mod x^N` of the `N` syndromes, the error at listed
//! position `t` is `Y_t = X_t O(X_t^-1) / L'(X_t^-1)`.
//!
//! The proof works with values at `z = X_t^-1` only. Writing each syndrome
//! as `S_i = sum_u e_u X_u^i`, the evaluator is
//! `O(z) = sum_u e_u sum_j L_j z^j G_(N-j)(z X_u)`, with `G_M(a)` the sum of
//! `a^i` for `i < M`. For another listed position `u`, `(1 + z X_u)` times
//! the inner sum is `L(z) + z^N X_u^(N-n) L*(X_u) = 0`; for `u = t` the
//! inner sum is `z L'(z)`. So `O(z) = e_t z L'(z)`, and `L'(z)` is not zero
//! because `z` is a simple root of `L`.
//!
//! Polynomials here have their lowest coefficient first unless said
//! otherwise.

use vstd::prelude::*;
use crate::poly::{
    exp2, bitlen, pxor, pmod, mulmod, powmod, lemma_exp2_pos, lemma_pxor_zero, lemma_pxor_comm,
    lemma_pxor_swap, lemma_pxor_self, lemma_pxor_assoc, lemma_pxor_bound, lemma_pxor_eq_zero,
    lemma_pmod_small, lemma_mulmod_comm, lemma_mulmod_assoc, lemma_mulmod_distrib, lemma_mulmod_one,
    lemma_powmod_reduced, lemma_bitlen_le, lemma_powmod_add, lemma_powmod_mul,
};
use crate::raid::fdiv;
use crate::raid::algebra::{field_inverts, modulus_ok, lemma_no_zero_divisors, lemma_mul_one, lemma_distrib_left};
use crate::shamir::peval;
use crate::shamir::algebra::{
    fits, poly_add, poly_scale, lemma_peval_add, lemma_peval_scale, lemma_peval_push_zero, lemma_peval_shift,
    lemma_peval_zero, lemma_m_pos, lemma_mulmod_zero, lemma_mulmod_fits, lemma_peval_fits,
};
use crate::rs::{beval, syndrome, mul_linear};
use crate::rs::algebra::lemma_beval_mul_linear;
use crate::rs::distance::{point, tsum};

verus! {

/// The erasure locator `prod_s (1 + p_s x)`, lowest coefficient first;
/// read highest coefficient first it is `prod_s (x + p_s)`.
pub open spec fn locator(p: Seq<nat>, m: nat) -> Seq<nat>
    decreases p.len(),
{
    if p.len() == 0 {
        seq![1nat]
    } else {
        mul_linear(locator(p.drop_last(), m), p.last(), m)
    }
}

/// `1, z, z^2, ..., z^(n-1)`.
pub open spec fn geo(z: nat, n: nat, m: nat) -> Seq<nat> {
    Seq::new(n, |i: int| powmod(z, i as nat, m))
}

/// `1 + a + a^2 + ... + a^(n-1)`.
pub open spec fn geo_sum(a: nat, n: nat, m: nat) -> nat
    decreases n,
{
    if n == 0 {
        0
    } else {
        pxor(mulmod(geo_sum(a, (n - 1) as nat, m), a, m), 1)
    }
}

pub proof fn lemma_one_fits(m: nat, w: nat)
    requires
        modulus_ok(m, w),
    ensures
        pmod(1, m) == 1,
        1 < exp2(w),
        0 < exp2(w),
{
    crate::poly::lemma_exp2_mono(1, w);
    assert(exp2(1) == 2 * exp2(0));
    lemma_bitlen_le(1, w);
    lemma_pmod_small(1, m);
}

/// Multiplying by `x + r` (highest coefficient first) is multiplying by
/// `1 + r x` (lowest coefficient first).
#[verifier::rlimit(40)]
pub proof fn lemma_peval_mul_linear(f: Seq<nat>, r: nat, x: nat, m: nat, w: nat)
    requires
        modulus_ok(m, w),
        fits(f, w),
    ensures
        peval(mul_linear(f, r, m), x, m) == mulmod(peval(f, x, m), pxor(1, mulmod(r, x, m)), m),
{
    lemma_m_pos(m, w);
    let a = f.push(0);
    let b = seq![0nat] + poly_scale(f, r, m);
    assert(mul_linear(f, r, m) =~= poly_add(a, b)) by {
        lemma_mulmod_zero(r, m);
    }
    let e = peval(f, x, m);
    assert(peval(mul_linear(f, r, m), x, m) == pxor(e, mulmod(mulmod(r, e, m), x, m))) by {
        lemma_peval_add(a, b, x, m);
        lemma_peval_push_zero(f, x, m);
        lemma_peval_shift(poly_scale(f, r, m), x, m);
        lemma_peval_scale(f, r, x, m);
    }
    assert(mulmod(mulmod(r, e, m), x, m) == mulmod(e, mulmod(r, x, m), m)) by {
        lemma_mulmod_comm(r, e, m);
        lemma_mulmod_assoc(e, r, x, m);
    }
    assert(mulmod(e, pxor(1, mulmod(r, x, m)), m) == pxor(e, mulmod(e, mulmod(r, x, m), m))) by {
        lemma_mulmod_distrib(e, 1, mulmod(r, x, m), m);
        lemma_peval_fits(f, x, m, w);
        lemma_mul_one(e, m, w);
    }
}

/// The locator has `n + 1` coefficients, the first of them `1`, and
/// fitting ones when the points fit.
pub proof fn lemma_locator_shape(p: Seq<nat>, m: nat, w: nat)
    requires
        modulus_ok(m, w),
        fits(p, w),
    ensures
        locator(p, m).len() == p.len() + 1,
        locator(p, m)[0] == 1,
        fits(locator(p, m), w),
    decreases p.len(),
{
    lemma_one_fits(m, w);
    if p.len() > 0 {
        let d = p.drop_last();
        assert(fits(d, w));
        lemma_locator_shape(d, m, w);
        let f = locator(d, m);
        lemma_pxor_zero(f[0]);
        let l = locator(p, m);
        assert forall|i: int| 0 <= i < l.len() implies #[trigger] l[i] < exp2(w) by {
            let a: nat = if i < f.len() { f[i] } else { 0 };
            let b: nat = if i >= 1 { mulmod(p.last(), f[i - 1], m) } else { 0 };
            if i >= 1 {
                lemma_mulmod_fits(p.last(), f[i - 1], m, w);
            }
            lemma_pxor_bound(a, b, w);
        }
    }
}

/// Read highest coefficient first, the locator vanishes at each point.
pub proof fn lemma_locator_roots(p: Seq<nat>, s: int, m: nat)
    requires
        m > 0,
        0 <= s < p.len(),
    ensures
        beval(locator(p, m), p[s], m) == 0,
    decreases p.len(),
{
    let d = p.drop_last();
    lemma_beval_mul_linear(locator(d, m), p.last(), p[s], m);
    if s == p.len() - 1 {
        lemma_pxor_self(p[s]);
        lemma_mulmod_zero(beval(locator(d, m), p[s], m), m);
    } else {
        lemma_locator_roots(d, s, m);
        lemma_mulmod_zero(pxor(p[s], p.last()), m);
    }
}

/// Read lowest coefficient first, the locator vanishes where `1 + p_s x`
/// does.
pub proof fn lemma_locator_inverse_roots(p: Seq<nat>, s: int, x: nat, m: nat, w: nat)
    requires
        modulus_ok(m, w),
        fits(p, w),
        0 <= s < p.len(),
        mulmod(p[s], x, m) == 1,
    ensures
        peval(locator(p, m), x, m) == 0,
    decreases p.len(),
{
    lemma_m_pos(m, w);
    let d = p.drop_last();
    assert(fits(d, w));
    lemma_locator_shape(d, m, w);
    lemma_peval_mul_linear(locator(d, m), p.last(), x, m, w);
    if s == p.len() - 1 {
        lemma_pxor_self(1);
        lemma_mulmod_zero(peval(locator(d, m), x, m), m);
    } else {
        lemma_locator_inverse_roots(d, s, x, m, w);
        lemma_mulmod_zero(pxor(1, mulmod(p.last(), x, m)), m);
    }
}

/// `(1 + a) (1 + a + ... + a^(n-1)) == 1 + a^n`.
#[verifier::rlimit(40)]
pub proof fn lemma_geo_sum(a: nat, n: nat, m: nat, w: nat)
    requires
        modulus_ok(m, w),
        a < exp2(w),
    ensures
        mulmod(pxor(1, a), geo_sum(a, n, m), m) == pxor(1, powmod(a, n, m)),
        geo_sum(a, n, m) < exp2(w),
    decreases n,
{
    lemma_m_pos(m, w);
    lemma_one_fits(m, w);
    if n == 0 {
        lemma_mulmod_zero(pxor(1, a), m);
        lemma_pxor_self(1);
    } else {
        let g0 = geo_sum(a, (n - 1) as nat, m);
        lemma_geo_sum(a, (n - 1) as nat, m, w);
        let an1 = powmod(a, (n - 1) as nat, m);
        let an = powmod(a, n, m);
        let b = pxor(1, a);
        assert(b < exp2(w)) by {
            lemma_pxor_bound(1, a, w);
        }
        // b (g0 a + 1) == b g0 a + b
        assert(mulmod(b, pxor(mulmod(g0, a, m), 1), m) == pxor(mulmod(b, mulmod(g0, a, m), m), b)) by {
            lemma_mulmod_distrib(b, mulmod(g0, a, m), 1, m);
            lemma_mul_one(b, m, w);
        }
        // b g0 a == a (1 + a^(n-1)) == a + a^n
        assert(mulmod(b, mulmod(g0, a, m), m) == pxor(a, an)) by {
            lemma_mulmod_comm(g0, a, m);
            lemma_mulmod_assoc(b, a, g0, m);
            lemma_mulmod_comm(b, a, m);
            lemma_mulmod_assoc(a, b, g0, m);
            lemma_mulmod_distrib(a, 1, an1, m);
            lemma_mul_one(a, m, w);
        }
        // (a + a^n) + (1 + a) == 1 + a^n
        assert(pxor(pxor(a, an), b) == pxor(1, an)) by {
            lemma_pxor_comm(1, a);
            lemma_pxor_swap(a, an, a, 1);
            lemma_pxor_self(a);
            lemma_pxor_zero(pxor(an, 1));
            lemma_pxor_comm(an, 1);
        }
        assert(geo_sum(a, n, m) < exp2(w)) by {
            lemma_mulmod_fits(g0, a, m, w);
            lemma_pxor_bound(mulmod(g0, a, m), 1, w);
        }
    }
}

/// `1 + 1 + ... + 1` (`n` terms) is `n mod 2`.
pub proof fn lemma_geo_sum_one(n: nat, m: nat, w: nat)
    requires
        modulus_ok(m, w),
    ensures
        geo_sum(1, n, m) == n % 2,
    decreases n,
{
    lemma_m_pos(m, w);
    lemma_one_fits(m, w);
    if n > 0 {
        lemma_geo_sum_one((n - 1) as nat, m, w);
        let g0 = geo_sum(1, (n - 1) as nat, m);
        lemma_mul_one(g0, m, w);
        if g0 == 0 {
            lemma_pxor_zero(1);
        } else {
            lemma_pxor_self(1);
        }
    }
}

/// The powers of `z` evaluated at `x` sum the powers of `z x`.
pub proof fn lemma_peval_geo(z: nat, n: nat, x: nat, m: nat, w: nat)
    requires
        modulus_ok(m, w),
    ensures
        peval(geo(z, n, m), x, m) == geo_sum(mulmod(z, x, m), n, m),
    decreases n,
{
    lemma_m_pos(m, w);
    lemma_one_fits(m, w);
    if n > 0 {
        let f = geo(z, n, m);
        let t = f.subrange(1, n as int);
        assert(t =~= poly_scale(geo(z, (n - 1) as nat, m), z, m));
        lemma_peval_scale(geo(z, (n - 1) as nat, m), z, x, m);
        lemma_peval_geo(z, (n - 1) as nat, x, m, w);
        let g0 = geo_sum(mulmod(z, x, m), (n - 1) as nat, m);
        lemma_mulmod_assoc(z, g0, x, m);
        lemma_mulmod_comm(z, g0, m);
        lemma_mulmod_assoc(g0, z, x, m);
        assert(f[0] == 1);
    }
}

/// `sum_(j <= i < n) f_i x^i`.
pub open spec fn psum(f: Seq<nat>, x: nat, j: int, m: nat) -> nat
    decreases f.len() - j,
{
    if j >= f.len() {
        0
    } else {
        pxor(mulmod(f[j], powmod(x, j as nat, m), m), psum(f, x, j + 1, m))
    }
}

/// `sum_(j <= i < n) f_i x^(n - 1 - i)`.
pub open spec fn rsum(f: Seq<nat>, x: nat, j: int, m: nat) -> nat
    decreases f.len() - j,
{
    if j >= f.len() {
        0
    } else {
        pxor(mulmod(f[j], powmod(x, (f.len() - 1 - j) as nat, m), m), rsum(f, x, j + 1, m))
    }
}

/// `sum_i b_i s_(k+i)`: weights applied to listed syndromes.
pub open spec fn ssum(b: Seq<nat>, k: nat, s: Seq<nat>, m: nat) -> nat
    decreases b.len(),
{
    if b.len() == 0 {
        0
    } else {
        pxor(mulmod(b[0], s[k as int], m), ssum(b.subrange(1, b.len() as int), k + 1, s, m))
    }
}

/// `L_j z^j`.
pub open spec fn cz(lam: Seq<nat>, z: nat, j: int, m: nat) -> nat {
    mulmod(lam[j], powmod(z, j as nat, m), m)
}

/// The evaluator at `z`, from the locator `lam` and the syndromes `s`:
/// `sum_(j <= i < n, i <= nn) L_i z^i T_(nn-i)(z)`, where `T_M(z)` sums
/// `s_k z^k` for `k < M`.
pub open spec fn osum(lam: Seq<nat>, s: Seq<nat>, z: nat, nn: nat, j: int, m: nat) -> nat
    decreases lam.len() - j,
{
    if j >= lam.len() {
        0
    } else {
        pxor(
            if j <= nn { mulmod(cz(lam, z, j, m), ssum(geo(z, (nn - j) as nat, m), 0, s, m), m) } else { 0 },
            osum(lam, s, z, nn, j + 1, m),
        )
    }
}

/// `z L'(z)`'s companion: `sum_(j <= i < n, i odd) L_i z^(i-1)`, which is
/// `L'(z)`.
pub open spec fn dsum(lam: Seq<nat>, z: nat, j: int, m: nat) -> nat
    decreases lam.len() - j,
{
    if j >= lam.len() {
        0
    } else {
        pxor(
            if j % 2 == 1 { mulmod(lam[j], powmod(z, (j - 1) as nat, m), m) } else { 0 },
            dsum(lam, z, j + 1, m),
        )
    }
}

/// `sum_(j <= i < n, i <= nn) L_i z^i G_(nn-i)(a)`.
pub open spec fn wsum(lam: Seq<nat>, z: nat, a: nat, nn: nat, j: int, m: nat) -> nat
    decreases lam.len() - j,
{
    if j >= lam.len() {
        0
    } else {
        pxor(
            if j <= nn { mulmod(cz(lam, z, j, m), geo_sum(a, (nn - j) as nat, m), m) } else { 0 },
            wsum(lam, z, a, nn, j + 1, m),
        )
    }
}

/// `sum_(u0 <= u < len) e_u G_M(z X_u)`.
pub open spec fn eg_sum(e: Seq<nat>, z: nat, mm: nat, g: nat, u0: int, m: nat) -> nat
    decreases e.len() - u0,
{
    if u0 >= e.len() {
        0
    } else {
        pxor(
            mulmod(e[u0], geo_sum(mulmod(z, point(e.len(), u0, g, m), m), mm, m), m),
            eg_sum(e, z, mm, g, u0 + 1, m),
        )
    }
}

/// `sum_(u0 <= u < len) e_u W_u` with `W_u = wsum(lam, z, z X_u, nn, j)`.
pub open spec fn ew_sum(e: Seq<nat>, lam: Seq<nat>, z: nat, nn: nat, g: nat, j: int, u0: int, m: nat) -> nat
    decreases e.len() - u0,
{
    if u0 >= e.len() {
        0
    } else {
        pxor(
            mulmod(e[u0], wsum(lam, z, mulmod(z, point(e.len(), u0, g, m), m), nn, j, m), m),
            ew_sum(e, lam, z, nn, g, j, u0 + 1, m),
        )
    }
}

/// A sum of powers read from the front is the value of the polynomial.
#[verifier::rlimit(40)]
pub proof fn lemma_psum_peval(f: Seq<nat>, x: nat, j: int, m: nat, w: nat)
    requires
        modulus_ok(m, w),
        fits(f, w),
        0 <= j <= f.len(),
    ensures
        psum(f, x, j, m) == mulmod(powmod(x, j as nat, m), peval(f.subrange(j, f.len() as int), x, m), m),
    decreases f.len() - j,
{
    lemma_m_pos(m, w);
    let t = f.subrange(j, f.len() as int);
    if j == f.len() {
        assert(t =~= Seq::<nat>::empty());
        lemma_mulmod_zero(powmod(x, j as nat, m), m);
    } else {
        lemma_psum_peval(f, x, j + 1, m, w);
        let t1 = f.subrange(j + 1, f.len() as int);
        assert(t.subrange(1, t.len() as int) =~= t1);
        let p1 = peval(t1, x, m);
        let xj = powmod(x, j as nat, m);
        // x^j (p1 x + f_j) == x^(j+1) p1 + f_j x^j
        assert(mulmod(xj, pxor(mulmod(p1, x, m), f[j]), m) == pxor(mulmod(xj, mulmod(p1, x, m), m), mulmod(xj, f[j], m))) by {
            lemma_mulmod_distrib(xj, mulmod(p1, x, m), f[j], m);
        }
        assert(mulmod(xj, mulmod(p1, x, m), m) == mulmod(powmod(x, (j + 1) as nat, m), p1, m)) by {
            lemma_mulmod_comm(p1, x, m);
            lemma_mulmod_assoc(xj, x, p1, m);
            lemma_mulmod_comm(xj, x, m);
        }
        lemma_mulmod_comm(xj, f[j], m);
        lemma_pxor_comm(mulmod(f[j], xj, m), mulmod(powmod(x, (j + 1) as nat, m), p1, m));
    }
}

/// At the front, the sum of powers is the value.
pub proof fn lemma_peval_psum(f: Seq<nat>, x: nat, m: nat, w: nat)
    requires
        modulus_ok(m, w),
        fits(f, w),
    ensures
        psum(f, x, 0, m) == peval(f, x, m),
{
    lemma_one_fits(m, w);
    lemma_psum_peval(f, x, 0, m, w);
    assert(f.subrange(0, f.len() as int) =~= f);
    lemma_peval_fits(f, x, m, w);
    lemma_mul_one(peval(f, x, m), m, w);
}

/// Read highest coefficient first, the sum of powers is the value.
pub proof fn lemma_rsum_beval(f: Seq<nat>, x: nat, j: int, m: nat, w: nat)
    requires
        modulus_ok(m, w),
        fits(f, w),
        0 <= j <= f.len(),
    ensures
        rsum(f, x, j, m) == beval(f.subrange(j, f.len() as int), x, m),
    decreases f.len() - j,
{
    let t = f.subrange(j, f.len() as int);
    if j == f.len() {
        assert(t =~= Seq::<nat>::empty());
    } else {
        lemma_rsum_beval(f, x, j + 1, m, w);
        assert(t.subrange(1, t.len() as int) =~= f.subrange(j + 1, f.len() as int));
        crate::rs::distance::lemma_beval_first(t, x, m, w);
    }
}

/// Weights applied to listed syndromes, when those are the word's.
pub proof fn lemma_ssum_tsum(b: Seq<nat>, k: nat, s: Seq<nat>, e: Seq<nat>, g: nat, m: nat)
    requires
        forall|i: nat| k <= i < k + b.len() ==> #[trigger] s[i as int] == syndrome(e, i, g, m),
    ensures
        ssum(b, k, s, m) == tsum(b, k, e, g, m),
    decreases b.len(),
{
    if b.len() > 0 {
        assert(s[k as int] == syndrome(e, k, g, m));
        lemma_ssum_tsum(b.subrange(1, b.len() as int), k + 1, s, e, g, m);
    }
}

/// The sum over positions of `e_u` times the value at `X_u` of the powers
/// of `z`.
pub proof fn lemma_zsum_geo(e: Seq<nat>, z: nat, mm: nat, g: nat, u0: int, m: nat, w: nat)
    requires
        modulus_ok(m, w),
        0 <= u0 <= e.len(),
    ensures
        crate::rs::distance::zsum(e.subrange(u0, e.len() as int), 0, geo(z, mm, m), g, m) == eg_sum(e, z, mm, g, u0, m),
    decreases e.len() - u0,
{
    lemma_m_pos(m, w);
    lemma_one_fits(m, w);
    let t = e.subrange(u0, e.len() as int);
    if u0 < e.len() {
        lemma_zsum_geo(e, z, mm, g, u0 + 1, m, w);
        assert(t.subrange(1, t.len() as int) =~= e.subrange(u0 + 1, e.len() as int));
        let x = point(e.len(), u0, g, m);
        assert(point(t.len(), 0, g, m) == x);
        lemma_peval_geo(z, mm, x, m, w);
        let a = mulmod(z, x, m);
        lemma_mulmod_fits(z, x, m, w);
        lemma_geo_sum(a, mm, m, w);
        lemma_mul_one(geo_sum(a, mm, m), m, w);
    }
}

/// Splitting off the first locator coefficient from the inner sums.
#[verifier::rlimit(40)]
pub proof fn lemma_ew_split(e: Seq<nat>, lam: Seq<nat>, z: nat, nn: nat, g: nat, j: int, u0: int, m: nat, w: nat)
    requires
        modulus_ok(m, w),
        0 <= j < lam.len(),
        0 <= u0,
    ensures
        ew_sum(e, lam, z, nn, g, j, u0, m) == pxor(
            if j <= nn { mulmod(cz(lam, z, j, m), eg_sum(e, z, (nn - j) as nat, g, u0, m), m) } else { 0 },
            ew_sum(e, lam, z, nn, g, j + 1, u0, m),
        ),
    decreases e.len() - u0,
{
    lemma_m_pos(m, w);
    if u0 >= e.len() {
        lemma_mulmod_zero(cz(lam, z, j, m), m);
        lemma_pxor_zero(0);
    } else {
        lemma_ew_split(e, lam, z, nn, g, j, u0 + 1, m, w);
        let x = point(e.len(), u0, g, m);
        let a = mulmod(z, x, m);
        let c = cz(lam, z, j, m);
        let gg = geo_sum(a, (nn - j) as nat, m);
        let tj: nat = if j <= nn { mulmod(c, gg, m) } else { 0 };
        let w1 = wsum(lam, z, a, nn, j + 1, m);
        let eu = e[u0];
        assert(mulmod(eu, pxor(tj, w1), m) == pxor(mulmod(eu, tj, m), mulmod(eu, w1, m))) by {
            lemma_mulmod_distrib(eu, tj, w1, m);
        }
        let eg1 = eg_sum(e, z, (nn - j) as nat, g, u0 + 1, m);
        let ew1 = ew_sum(e, lam, z, nn, g, j + 1, u0 + 1, m);
        if j <= nn {
            assert(mulmod(eu, tj, m) == mulmod(c, mulmod(eu, gg, m), m)) by {
                lemma_mulmod_assoc(eu, c, gg, m);
                lemma_mulmod_comm(eu, c, m);
                lemma_mulmod_assoc(c, eu, gg, m);
            }
            assert(mulmod(c, pxor(mulmod(eu, gg, m), eg1), m) == pxor(mulmod(c, mulmod(eu, gg, m), m), mulmod(c, eg1, m))) by {
                lemma_mulmod_distrib(c, mulmod(eu, gg, m), eg1, m);
            }
            lemma_pxor_swap(mulmod(eu, tj, m), mulmod(eu, w1, m), mulmod(c, eg1, m), ew1);
        } else {
            lemma_mulmod_zero(eu, m);
            lemma_pxor_zero(mulmod(eu, w1, m));
            lemma_pxor_zero(ew1);
            lemma_pxor_zero(pxor(mulmod(eu, w1, m), ew1));
        }
    }
}

/// With no locator coefficients left, the sum is zero.
proof fn lemma_ew_empty(e: Seq<nat>, lam: Seq<nat>, z: nat, nn: nat, g: nat, j: int, u0: int, m: nat)
    requires
        m > 0,
        j >= lam.len(),
        0 <= u0,
    ensures
        ew_sum(e, lam, z, nn, g, j, u0, m) == 0,
    decreases e.len() - u0,
{
    if u0 < e.len() {
        lemma_ew_empty(e, lam, z, nn, g, j, u0 + 1, m);
        lemma_mulmod_zero(e[u0], m);
        lemma_pxor_zero(0);
    }
}

/// The evaluator at `z` sums, over the positions `u`, `e_u` times the
/// inner sums at `z X_u`.
#[verifier::rlimit(40)]
pub proof fn lemma_osum_ew(e: Seq<nat>, lam: Seq<nat>, s: Seq<nat>, z: nat, nn: nat, g: nat, j: int, m: nat, w: nat)
    requires
        modulus_ok(m, w),
        fits(e, w),
        0 <= j <= lam.len(),
        forall|i: nat| i < nn ==> #[trigger] s[i as int] == syndrome(e, i, g, m),
    ensures
        osum(lam, s, z, nn, j, m) == ew_sum(e, lam, z, nn, g, j, 0, m),
    decreases lam.len() - j,
{
    lemma_m_pos(m, w);
    if j == lam.len() {
        lemma_ew_empty(e, lam, z, nn, g, j, 0, m);
    } else {
        lemma_osum_ew(e, lam, s, z, nn, g, j + 1, m, w);
        lemma_ew_split(e, lam, z, nn, g, j, 0, m, w);
        if j <= nn {
            let b = geo(z, (nn - j) as nat, m);
            lemma_ssum_tsum(b, 0, s, e, g, m);
            crate::rs::distance::lemma_tsum_zsum(b, 0, e, g, m, w);
            lemma_zsum_geo(e, z, (nn - j) as nat, g, 0, m, w);
            assert(e.subrange(0, e.len() as int) =~= e);
        }
    }
}

/// When every position but `t` contributes zero, the sum is `t`'s part.
pub proof fn lemma_ew_single(e: Seq<nat>, lam: Seq<nat>, z: nat, nn: nat, g: nat, t: int, u0: int, m: nat)
    requires
        0 <= u0,
        forall|u: int| 0 <= u < e.len() && u != t
            ==> #[trigger] mulmod(e[u], wsum(lam, z, mulmod(z, point(e.len(), u, g, m), m), nn, 0, m), m) == 0,
    ensures
        ew_sum(e, lam, z, nn, g, 0, u0, m) == (if u0 <= t < e.len() {
            mulmod(e[t], wsum(lam, z, mulmod(z, point(e.len(), t, g, m), m), nn, 0, m), m)
        } else {
            0
        }),
    decreases e.len() - u0,
{
    if u0 < e.len() {
        lemma_ew_single(e, lam, z, nn, g, t, u0 + 1, m);
        let x = point(e.len(), u0, g, m);
        let here = mulmod(e[u0], wsum(lam, z, mulmod(z, x, m), nn, 0, m), m);
        if u0 == t {
            lemma_pxor_zero(here);
        } else {
            assert(here == 0);
            lemma_pxor_zero(ew_sum(e, lam, z, nn, g, 0, u0 + 1, m));
        }
    }
}

/// The inner sums fit.
pub proof fn lemma_wsum_fits(lam: Seq<nat>, z: nat, a: nat, nn: nat, j: int, m: nat, w: nat)
    requires
        modulus_ok(m, w),
    ensures
        wsum(lam, z, a, nn, j, m) < exp2(w),
    decreases lam.len() - j,
{
    lemma_one_fits(m, w);
    if j < lam.len() {
        lemma_wsum_fits(lam, z, a, nn, j + 1, m, w);
        let c = cz(lam, z, j, m);
        lemma_mulmod_fits(c, geo_sum(a, (nn - j) as nat, m), m, w);
        let tj: nat = if j <= nn { mulmod(c, geo_sum(a, (nn - j) as nat, m), m) } else { 0 };
        lemma_pxor_bound(tj, wsum(lam, z, a, nn, j + 1, m), w);
    }
}

/// `L_j z^j (z x)^(nn-j) == z^nn x^(nn-n) (L_j x^(n-j))`.
proof fn lemma_term_shift(l: nat, z: nat, x: nat, j: nat, n: nat, nn: nat, m: nat)
    requires
        m > 0,
        j <= n <= nn,
    ensures
        mulmod(mulmod(l, powmod(z, j, m), m), powmod(mulmod(z, x, m), (nn - j) as nat, m), m)
            == mulmod(mulmod(powmod(z, nn, m), powmod(x, (nn - n) as nat, m), m), mulmod(l, powmod(x, (n - j) as nat, m), m), m),
{
    let zj = powmod(z, j, m);
    let zr = powmod(z, (nn - j) as nat, m);
    let xr = powmod(x, (nn - j) as nat, m);
    let zn = powmod(z, nn, m);
    let xa = powmod(x, (nn - n) as nat, m);
    let xb = powmod(x, (n - j) as nat, m);
    lemma_powmod_mul(z, x, (nn - j) as nat, m);
    lemma_powmod_add(z, j, (nn - j) as nat, m);
    assert(j + (nn - j) as nat == nn);
    lemma_powmod_add(x, (nn - n) as nat, (n - j) as nat, m);
    assert((nn - n) as nat + (n - j) as nat == (nn - j) as nat);
    // (l zj)(zr xr) == l ((zj zr) xr) == l (zn (xa xb))
    assert(mulmod(mulmod(l, zj, m), mulmod(zr, xr, m), m) == mulmod(l, mulmod(mulmod(zj, zr, m), xr, m), m)) by {
        lemma_mulmod_assoc(l, zj, mulmod(zr, xr, m), m);
        lemma_mulmod_assoc(zj, zr, xr, m);
    }
    // zn (xa xb) == (zn xa) xb
    lemma_mulmod_assoc(zn, xa, xb, m);
    // l ((zn xa) xb) == (zn xa) (l xb)
    assert(mulmod(l, mulmod(mulmod(zn, xa, m), xb, m), m) == mulmod(mulmod(zn, xa, m), mulmod(l, xb, m), m)) by {
        let k = mulmod(zn, xa, m);
        lemma_mulmod_comm(k, xb, m);
        lemma_mulmod_assoc(l, xb, k, m);
        lemma_mulmod_comm(mulmod(l, xb, m), k, m);
    }
}

/// `(1 + a)` times the inner sums from `j` on, for `a = z x`.
#[verifier::rlimit(40)]
proof fn lemma_wsum_times(lam: Seq<nat>, z: nat, x: nat, nn: nat, j: int, m: nat, w: nat)
    requires
        modulus_ok(m, w),
        fits(lam, w),
        lam.len() >= 1,
        lam.len() - 1 <= nn,
        0 <= j <= lam.len(),
        z < exp2(w),
        x < exp2(w),
    ensures
        mulmod(pxor(1, mulmod(z, x, m)), wsum(lam, z, mulmod(z, x, m), nn, j, m), m) == pxor(
            psum(lam, z, j, m),
            mulmod(mulmod(powmod(z, nn, m), powmod(x, (nn - (lam.len() - 1)) as nat, m), m), rsum(lam, x, j, m), m),
        ),
    decreases lam.len() - j,
{
    lemma_m_pos(m, w);
    lemma_one_fits(m, w);
    let a = mulmod(z, x, m);
    let b = pxor(1, a);
    let n = (lam.len() - 1) as nat;
    let k = mulmod(powmod(z, nn, m), powmod(x, (nn - n) as nat, m), m);
    if j == lam.len() {
        lemma_mulmod_zero(b, m);
        lemma_mulmod_zero(k, m);
        lemma_pxor_zero(0);
    } else {
        lemma_wsum_times(lam, z, x, nn, j + 1, m, w);
        lemma_mulmod_fits(z, x, m, w);
        let c = cz(lam, z, j, m);
        let gg = geo_sum(a, (nn - j) as nat, m);
        let w1 = wsum(lam, z, a, nn, j + 1, m);
        let p1 = psum(lam, z, j + 1, m);
        let r1 = rsum(lam, x, j + 1, m);
        let an = powmod(a, (nn - j) as nat, m);
        // b (c gg + w1) == b (c gg) + b w1
        assert(mulmod(b, pxor(mulmod(c, gg, m), w1), m) == pxor(mulmod(b, mulmod(c, gg, m), m), mulmod(b, w1, m))) by {
            lemma_mulmod_distrib(b, mulmod(c, gg, m), w1, m);
        }
        // b (c gg) == c (b gg) == c (1 + an) == c + c an
        assert(mulmod(b, mulmod(c, gg, m), m) == pxor(c, mulmod(c, an, m))) by {
            lemma_mulmod_assoc(b, c, gg, m);
            lemma_mulmod_comm(b, c, m);
            lemma_mulmod_assoc(c, b, gg, m);
            lemma_geo_sum(a, (nn - j) as nat, m, w);
            lemma_mulmod_distrib(c, 1, an, m);
            lemma_mulmod_fits(lam[j], powmod(z, j as nat, m), m, w);
            lemma_mul_one(c, m, w);
        }
        // c an == k (L_j x^(n-j))
        let lx = mulmod(lam[j], powmod(x, (n - j) as nat, m), m);
        assert(mulmod(c, an, m) == mulmod(k, lx, m)) by {
            lemma_term_shift(lam[j], z, x, j as nat, n, nn, m);
        }
        assert(mulmod(k, pxor(lx, r1), m) == pxor(mulmod(k, lx, m), mulmod(k, r1, m))) by {
            lemma_mulmod_distrib(k, lx, r1, m);
        }
        assert((lam.len() - 1 - j) as nat == (n - j) as nat);
        lemma_pxor_swap(c, mulmod(c, an, m), p1, mulmod(k, r1, m));
    }
}

/// At another erased position `u`, the inner sum is zero.
pub proof fn lemma_wsum_other(lam: Seq<nat>, z: nat, x: nat, nn: nat, m: nat, w: nat)
    requires
        modulus_ok(m, w),
        field_inverts(m, w),
        fits(lam, w),
        lam.len() >= 1,
        lam.len() - 1 <= nn,
        z < exp2(w),
        x < exp2(w),
        mulmod(z, x, m) != 1,
        peval(lam, z, m) == 0,
        beval(lam, x, m) == 0,
    ensures
        wsum(lam, z, mulmod(z, x, m), nn, 0, m) == 0,
{
    lemma_m_pos(m, w);
    lemma_one_fits(m, w);
    let a = mulmod(z, x, m);
    lemma_wsum_times(lam, z, x, nn, 0, m, w);
    lemma_peval_psum(lam, z, m, w);
    lemma_rsum_beval(lam, x, 0, m, w);
    assert(lam.subrange(0, lam.len() as int) =~= lam);
    let k = mulmod(powmod(z, nn, m), powmod(x, (nn - (lam.len() - 1)) as nat, m), m);
    lemma_mulmod_zero(k, m);
    lemma_pxor_zero(0);
    let ww = wsum(lam, z, a, nn, 0, m);
    lemma_wsum_fits(lam, z, a, nn, 0, m, w);
    lemma_mulmod_fits(z, x, m, w);
    lemma_pxor_bound(1, a, w);
    if pxor(1, a) == 0 {
        lemma_pxor_eq_zero(1, a);
    }
    if ww != 0 {
        lemma_no_zero_divisors(pxor(1, a), ww, m, w);
    }
}

/// The odd-power part of `sum_(j <= i < n) L_i z^i`.
pub open spec fn odd_part(lam: Seq<nat>, z: nat, j: int, m: nat) -> nat
    decreases lam.len() - j,
{
    if j >= lam.len() {
        0
    } else {
        pxor(if j % 2 == 1 { cz(lam, z, j, m) } else { 0 }, odd_part(lam, z, j + 1, m))
    }
}

/// The even-power part of `sum_(j <= i < n) L_i z^i`.
pub open spec fn even_part(lam: Seq<nat>, z: nat, j: int, m: nat) -> nat
    decreases lam.len() - j,
{
    if j >= lam.len() {
        0
    } else {
        pxor(if j % 2 == 0 { cz(lam, z, j, m) } else { 0 }, even_part(lam, z, j + 1, m))
    }
}

/// The odd and even parts add up.
#[verifier::rlimit(40)]
proof fn lemma_parts_sum(lam: Seq<nat>, z: nat, j: int, m: nat)
    requires
        0 <= j <= lam.len(),
    ensures
        psum(lam, z, j, m) == pxor(odd_part(lam, z, j, m), even_part(lam, z, j, m)),
    decreases lam.len() - j,
{
    if j == lam.len() {
        lemma_pxor_zero(0);
    } else {
        lemma_parts_sum(lam, z, j + 1, m);
        let c = cz(lam, z, j, m);
        let o1 = odd_part(lam, z, j + 1, m);
        let e1 = even_part(lam, z, j + 1, m);
        if j % 2 == 1 {
            lemma_pxor_zero(e1);
            lemma_pxor_assoc(c, o1, e1);
        } else {
            lemma_pxor_zero(o1);
            lemma_pxor_comm(o1, pxor(c, e1));
            lemma_pxor_assoc(c, e1, o1);
            lemma_pxor_comm(e1, o1);
        }
    }
}

/// `z` times the derivative sum is the odd part.
#[verifier::rlimit(40)]
proof fn lemma_parts_deriv(lam: Seq<nat>, z: nat, j: int, m: nat)
    requires
        m > 0,
        0 <= j <= lam.len(),
    ensures
        mulmod(z, dsum(lam, z, j, m), m) == odd_part(lam, z, j, m),
    decreases lam.len() - j,
{
    if j == lam.len() {
        lemma_mulmod_zero(z, m);
    } else {
        lemma_parts_deriv(lam, z, j + 1, m);
        let d1 = dsum(lam, z, j + 1, m);
        let dj: nat = if j % 2 == 1 { mulmod(lam[j], powmod(z, (j - 1) as nat, m), m) } else { 0 };
        lemma_mulmod_distrib(z, dj, d1, m);
        if j % 2 == 1 {
            let zp = powmod(z, (j - 1) as nat, m);
            assert(powmod(z, j as nat, m) == mulmod(z, zp, m));
            assert(mulmod(z, dj, m) == cz(lam, z, j, m)) by {
                lemma_mulmod_assoc(z, lam[j], zp, m);
                lemma_mulmod_comm(z, lam[j], m);
                lemma_mulmod_assoc(lam[j], z, zp, m);
            }
        } else {
            lemma_mulmod_zero(z, m);
        }
    }
}

/// The inner sum at `a = 1` is the part of the parity of `nn + 1`.
#[verifier::rlimit(40)]
proof fn lemma_parts_one(lam: Seq<nat>, z: nat, nn: nat, j: int, m: nat, w: nat)
    requires
        modulus_ok(m, w),
        lam.len() - 1 <= nn,
        0 <= j <= lam.len(),
    ensures
        wsum(lam, z, 1, nn, j, m) == (if nn % 2 == 0 { odd_part(lam, z, j, m) } else { even_part(lam, z, j, m) }),
    decreases lam.len() - j,
{
    lemma_m_pos(m, w);
    if j < lam.len() {
        lemma_parts_one(lam, z, nn, j + 1, m, w);
        let c = cz(lam, z, j, m);
        let gg = geo_sum(1, (nn - j) as nat, m);
        assert(mulmod(c, gg, m) == (if (nn - j) % 2 == 1 { c } else { 0 })) by {
            lemma_mulmod_fits(lam[j], powmod(z, j as nat, m), m, w);
            lemma_geo_sum_one((nn - j) as nat, m, w);
            lemma_mul_one(c, m, w);
            lemma_mulmod_zero(c, m);
        }
        lemma_parity(nn as int, j);
    }
}

proof fn lemma_parity(nn: int, j: int)
    requires
        0 <= j <= nn,
    ensures
        ((nn - j) % 2 == 1) == (if nn % 2 == 0 { j % 2 == 1 } else { j % 2 == 0 }),
{
    assert(((nn - j) % 2 == 1) == (if nn % 2 == 0 { j % 2 == 1 } else { j % 2 == 0 })) by (nonlinear_arith)
        requires
            0 <= j <= nn,
    ;
}

/// At the erased position `t` itself, the inner sum is `z L'(z)`.
pub proof fn lemma_wsum_own(lam: Seq<nat>, z: nat, nn: nat, m: nat, w: nat)
    requires
        modulus_ok(m, w),
        fits(lam, w),
        lam.len() - 1 <= nn,
        peval(lam, z, m) == 0,
    ensures
        wsum(lam, z, 1, nn, 0, m) == mulmod(z, dsum(lam, z, 0, m), m),
{
    lemma_m_pos(m, w);
    lemma_parts_sum(lam, z, 0, m);
    lemma_parts_deriv(lam, z, 0, m);
    lemma_parts_one(lam, z, nn, 0, m, w);
    lemma_peval_psum(lam, z, m, w);
    if nn % 2 == 1 {
        lemma_pxor_eq_zero(odd_part(lam, z, 0, m), even_part(lam, z, 0, m));
    }
}

/// The derivative sum of `(x + z) q` is `q(z)`: for even `j`, the parts
/// from `j` on agree.
#[verifier::rlimit(40)]
proof fn lemma_dsum_quotient(lam: Seq<nat>, q: Seq<nat>, z: nat, j: int, m: nat)
    requires
        m > 0,
        lam.len() == q.len() + 1,
        forall|p: int| 0 <= p < lam.len() ==> #[trigger] lam[p] == crate::shamir::algebra::mul_lin(q, z, m)[p],
        0 <= j <= lam.len(),
        j % 2 == 0,
    ensures
        dsum(lam, z, j, m) == psum(q, z, j, m),
    decreases lam.len() - j,
{
    let n = lam.len();
    if j < n {
        let d1 = dsum(lam, z, j + 1, m);
        assert(dsum(lam, z, j, m) == d1) by {
            lemma_pxor_zero(d1);
        }
        if j + 1 < n {
            lemma_dsum_quotient(lam, q, z, j + 2, m);
            let zj = powmod(z, j as nat, m);
            let qn: nat = if j + 1 < q.len() { mulmod(z, q[j + 1], m) } else { 0 };
            assert(lam[j + 1] == pxor(q[j], qn));
            let a = mulmod(q[j], zj, m);
            let b = mulmod(qn, zj, m);
            let p2 = psum(q, z, j + 2, m);
            assert(mulmod(pxor(q[j], qn), zj, m) == pxor(a, b)) by {
                lemma_distrib_left(q[j], qn, zj, m);
            }
            assert(d1 == pxor(pxor(a, b), p2));
            if j + 1 < q.len() {
                assert(b == mulmod(q[j + 1], powmod(z, (j + 1) as nat, m), m)) by {
                    lemma_mulmod_comm(z, q[j + 1], m);
                    lemma_mulmod_assoc(q[j + 1], z, zj, m);
                }
                assert(psum(q, z, j + 1, m) == pxor(b, p2));
                assert(psum(q, z, j, m) == pxor(a, pxor(b, p2)));
                lemma_pxor_assoc(a, b, p2);
            } else {
                assert(b == 0) by {
                    lemma_mulmod_zero(zj, m);
                }
                lemma_pxor_zero(a);
                assert(p2 == 0);
                assert(psum(q, z, j + 1, m) == 0);
            }
        }
    }
}

/// Two elements with the same inverse are equal.
pub proof fn lemma_same_inverse(a: nat, b: nat, y: nat, m: nat, w: nat)
    requires
        modulus_ok(m, w),
        a < exp2(w),
        b < exp2(w),
        mulmod(a, y, m) == 1,
        mulmod(b, y, m) == 1,
    ensures
        a == b,
{
    lemma_m_pos(m, w);
    lemma_mul_one(a, m, w);
    lemma_mul_one(b, m, w);
    lemma_mulmod_assoc(a, b, y, m);
    lemma_mulmod_comm(a, b, m);
    lemma_mulmod_assoc(b, a, y, m);
}

/// `b * b^(2^w - 2) == 1` for non-zero `b`.
pub proof fn lemma_inverse(b: nat, m: nat, w: nat)
    requires
        modulus_ok(m, w),
        field_inverts(m, w),
        0 < b < exp2(w),
    ensures
        mulmod(b, powmod(b, (exp2(w) - 2) as nat, m), m) == 1,
        fdiv(1, b, m, w) == powmod(b, (exp2(w) - 2) as nat, m),
        powmod(b, (exp2(w) - 2) as nat, m) < exp2(w),
{
    lemma_m_pos(m, w);
    lemma_exp2_pos(w);
    assert(powmod(b, (exp2(w) - 1) as nat, m) == 1);
    crate::field::lemma_div_laws(0, b, m, w);
    let i = powmod(b, (exp2(w) - 2) as nat, m);
    lemma_mulmod_one(i, m);
    lemma_powmod_reduced(b, (exp2(w) - 2) as nat, m);
    crate::rs::distance::lemma_powmod_fits(b, (exp2(w) - 2) as nat, m, w);
}

/// A root of the locator at `z = p_t^-1` is simple: the quotient by
/// `x + z` does not vanish at `z`.
#[verifier::rlimit(40)]
pub proof fn lemma_quotient_nonzero(p: Seq<nat>, t: int, z: nat, m: nat, w: nat)
    requires
        modulus_ok(m, w),
        field_inverts(m, w),
        fits(p, w),
        crate::shamir::algebra::distinct(p),
        forall|i: int| 0 <= i < p.len() ==> #[trigger] p[i] != 0,
        0 <= t < p.len(),
        z < exp2(w),
        mulmod(p[t], z, m) == 1,
    ensures
        peval(crate::shamir::algebra::quotient(locator(p, m), z, m), z, m) != 0,
{
    lemma_m_pos(m, w);
    lemma_one_fits(m, w);
    let lam = locator(p, m);
    let q = crate::shamir::algebra::quotient(lam, z, m);
    lemma_locator_shape(p, m, w);
    assert forall|i: int| 0 <= i < q.len() implies #[trigger] q[i] < exp2(w) by {
        crate::shamir::algebra::lemma_quotient_fits(lam, z, i, m, w);
    }
    if peval(q, z, m) == 0 {
        let e2 = (exp2(w) - 2) as nat;
        let zs = Seq::new(p.len(), |i: int| if i == t { z } else { powmod(p[i], e2, m) });
        assert forall|i: int| 0 <= i < zs.len() implies mulmod(p[i], #[trigger] zs[i], m) == 1 && zs[i] < exp2(w) by {
            if i != t {
                lemma_inverse(p[i], m, w);
            }
        }
        assert forall|i: int, j: int| 0 <= i < j < zs.len() implies zs[i] != zs[j] by {
            if zs[i] == zs[j] {
                lemma_same_inverse(p[i], p[j], zs[i], m, w);
            }
        }
        lemma_locator_inverse_roots(p, t, z, m, w);
        assert forall|i: int| 0 <= i < zs.len() implies peval(q, #[trigger] zs[i], m) == 0 by {
            if i != t {
                let y = zs[i];
                lemma_locator_inverse_roots(p, i, y, m, w);
                crate::shamir::algebra::lemma_quotient(lam, z, y, m);
                lemma_pxor_zero(mulmod(peval(q, y, m), pxor(y, z), m));
                lemma_pxor_bound(y, z, w);
                if pxor(y, z) == 0 {
                    lemma_pxor_eq_zero(y, z);
                    assert(zs[i] == zs[t]);
                    if i < t {
                    } else {
                    }
                }
                lemma_peval_fits(q, y, m, w);
                if peval(q, y, m) != 0 {
                    lemma_no_zero_divisors(peval(q, y, m), pxor(y, z), m, w);
                }
            }
        }
        crate::shamir::algebra::lemma_roots(q, zs, m, w);
        crate::shamir::algebra::lemma_quotient(lam, z, 0, m);
        assert(peval(q, 0, m) == 0);
        lemma_mulmod_zero(pxor(0, z), m);
        lemma_pxor_zero(0);
        lemma_peval_zero(lam, m);
        assert(false);
    }
}

/// The points of the listed positions of a codeword of `len` words.
pub open spec fn erasure_points(len: nat, locs: Seq<usize>, g: nat, m: nat) -> Seq<nat> {
    Seq::new(locs.len(), |i: int| point(len, locs[i] as int, g, m))
}

/// The magnitude Forney's formula gives at the point `x`:
/// `x O(x^-1) / L'(x^-1)`, or zero where `L'(x^-1)` is zero.
pub open spec fn magnitude(lam: Seq<nat>, s: Seq<nat>, x: nat, nn: nat, m: nat, w: nat) -> nat {
    let z = fdiv(1, x, m, w);
    let d = dsum(lam, z, 0, m);
    if d == 0 {
        0
    } else {
        fdiv(mulmod(x, osum(lam, s, z, nn, 0, m), m), d, m, w)
    }
}

/// The points of distinct listed positions are distinct, non-zero field
/// elements.
pub proof fn lemma_points_ok(len: nat, locs: Seq<usize>, g: nat, m: nat, w: nat)
    requires
        crate::rs::distance::rs_field_facts(g, m, w, len),
        forall|a: int, b: int| 0 <= a < b < locs.len() ==> locs[a] != locs[b],
        forall|i: int| 0 <= i < locs.len() ==> #[trigger] locs[i] < len,
    ensures
        fits(erasure_points(len, locs, g, m), w),
        crate::shamir::algebra::distinct(erasure_points(len, locs, g, m)),
        forall|i: int| 0 <= i < locs.len() ==> #[trigger] erasure_points(len, locs, g, m)[i] != 0,
{
    let p = erasure_points(len, locs, g, m);
    assert forall|i: int| 0 <= i < p.len() implies #[trigger] p[i] < exp2(w) && p[i] != 0 by {
        crate::rs::distance::lemma_powmod_fits(g, (len - 1 - locs[i]) as nat, m, w);
    }
    assert forall|i: int, j: int| 0 <= i < j < p.len() implies p[i] != p[j] by {
        assert((len - 1 - locs[i]) as nat != (len - 1 - locs[j]) as nat);
    }
}

/// At `z = X_t^-1`, every position other than `t` adds nothing to the
/// evaluator.
#[verifier::rlimit(40)]
proof fn lemma_other_terms(e: Seq<nat>, locs: Seq<usize>, t: int, z: nat, nn: nat, g: nat, m: nat, w: nat)
    requires
        crate::rs::distance::rs_field_facts(g, m, w, e.len()),
        e.len() <= usize::MAX,
        fits(erasure_points(e.len(), locs, g, m), w),
        crate::shamir::algebra::distinct(erasure_points(e.len(), locs, g, m)),
        fits(locator(erasure_points(e.len(), locs, g, m), m), w),
        locator(erasure_points(e.len(), locs, g, m), m).len() == locs.len() + 1,
        peval(locator(erasure_points(e.len(), locs, g, m), m), z, m) == 0,
        locs.len() <= nn,
        forall|u: int| 0 <= u < e.len() && e[u] != 0 ==> locs.contains(u as usize),
        0 <= t < locs.len(),
        z < exp2(w),
        mulmod(erasure_points(e.len(), locs, g, m)[t], z, m) == 1,
    ensures
        forall|u: int| 0 <= u < e.len() && u != locs[t] as int ==> #[trigger] mulmod(
            e[u],
            wsum(locator(erasure_points(e.len(), locs, g, m), m), z, mulmod(z, point(e.len(), u, g, m), m), nn, 0, m),
            m,
        ) == 0,
{
    lemma_m_pos(m, w);
    let len = e.len();
    let p = erasure_points(len, locs, g, m);
    let lam = locator(p, m);
    let x = p[t];
    assert forall|u: int| 0 <= u < len && u != locs[t] as int
        implies #[trigger] mulmod(e[u], wsum(lam, z, mulmod(z, point(len, u, g, m), m), nn, 0, m), m) == 0 by {
        if e[u] == 0 {
            lemma_mulmod_zero(wsum(lam, z, mulmod(z, point(len, u, g, m), m), nn, 0, m), m);
        } else {
            assert(locs.contains(u as usize));
            let sp = choose|i: int| 0 <= i < locs.len() && locs[i] == u as usize;
            assert(locs[sp] as int == u);
            assert(p[sp] == point(len, u, g, m));
            let xu = p[sp];
            if mulmod(z, xu, m) == 1 {
                lemma_mulmod_comm(z, xu, m);
                lemma_same_inverse(x, xu, z, m, w);
                if sp < t {
                    assert(p[sp] != p[t]);
                } else {
                    assert(p[t] != p[sp]);
                }
            }
            lemma_locator_roots(p, sp, m);
            lemma_wsum_other(lam, z, xu, nn, m, w);
            lemma_mulmod_zero(e[u], m);
        }
    }
}

/// The evaluator at `z = X_t^-1` is `e_t z L'(z)`.
#[verifier::rlimit(40)]
proof fn lemma_evaluator_value(e: Seq<nat>, locs: Seq<usize>, s: Seq<nat>, t: int, z: nat, nn: nat, g: nat, m: nat, w: nat)
    requires
        crate::rs::distance::rs_field_facts(g, m, w, e.len()),
        e.len() <= usize::MAX,
        fits(e, w),
        forall|i: nat| i < nn ==> #[trigger] s[i as int] == syndrome(e, i, g, m),
        forall|a: int, b: int| 0 <= a < b < locs.len() ==> locs[a] != locs[b],
        forall|i: int| 0 <= i < locs.len() ==> #[trigger] locs[i] < e.len(),
        locs.len() <= nn,
        forall|u: int| 0 <= u < e.len() && e[u] != 0 ==> locs.contains(u as usize),
        0 <= t < locs.len(),
        z < exp2(w),
        mulmod(z, erasure_points(e.len(), locs, g, m)[t], m) == 1,
    ensures
        osum(locator(erasure_points(e.len(), locs, g, m), m), s, z, nn, 0, m)
            == mulmod(e[locs[t] as int], mulmod(z, dsum(locator(erasure_points(e.len(), locs, g, m), m), z, 0, m), m), m),
{
    lemma_m_pos(m, w);
    let len = e.len();
    let p = erasure_points(len, locs, g, m);
    let lam = locator(p, m);
    let x = p[t];
    let tt = locs[t] as int;
    lemma_points_ok(len, locs, g, m, w);
    lemma_locator_shape(p, m, w);
    lemma_mulmod_comm(z, x, m);
    lemma_locator_inverse_roots(p, t, z, m, w);
    lemma_osum_ew(e, lam, s, z, nn, g, 0, m, w);
    lemma_other_terms(e, locs, t, z, nn, g, m, w);
    lemma_ew_single(e, lam, z, nn, g, tt, 0, m);
    assert(point(len, tt, g, m) == x);
    lemma_wsum_own(lam, z, nn, m, w);
}

/// The derivative of the locator does not vanish at `z = X_t^-1`.
#[verifier::rlimit(40)]
proof fn lemma_deriv_nonzero(p: Seq<nat>, t: int, z: nat, m: nat, w: nat)
    requires
        modulus_ok(m, w),
        field_inverts(m, w),
        fits(p, w),
        crate::shamir::algebra::distinct(p),
        forall|i: int| 0 <= i < p.len() ==> #[trigger] p[i] != 0,
        0 <= t < p.len(),
        z < exp2(w),
        mulmod(p[t], z, m) == 1,
    ensures
        0 < dsum(locator(p, m), z, 0, m) < exp2(w),
{
    lemma_m_pos(m, w);
    let lam = locator(p, m);
    lemma_locator_shape(p, m, w);
    lemma_locator_inverse_roots(p, t, z, m, w);
    let q = crate::shamir::algebra::quotient(lam, z, m);
    crate::shamir::algebra::lemma_quotient(lam, z, z, m);
    assert forall|i: int| 0 <= i < lam.len() implies #[trigger] lam[i] == crate::shamir::algebra::mul_lin(q, z, m)[i] by {
        let ml = crate::shamir::algebra::mul_lin(q, z, m);
        assert(lam[i] == pxor(ml[i], if i == 0 { peval(lam, z, m) } else { 0nat }));
        lemma_pxor_zero(ml[i]);
    }
    lemma_dsum_quotient(lam, q, z, 0, m);
    assert forall|i: int| 0 <= i < q.len() implies #[trigger] q[i] < exp2(w) by {
        crate::shamir::algebra::lemma_quotient_fits(lam, z, i, m, w);
    }
    lemma_peval_psum(q, z, m, w);
    lemma_quotient_nonzero(p, t, z, m, w);
    lemma_peval_fits(q, z, m, w);
}

/// Forney's formula gives the error at each listed position, when the
/// error word `e` is zero away from the listed positions, these are
/// distinct and at most `nn`, and `s` holds the first `nn` syndromes of `e`.
#[verifier::rlimit(40)]
pub proof fn lemma_forney(e: Seq<nat>, locs: Seq<usize>, s: Seq<nat>, t: int, nn: nat, g: nat, m: nat, w: nat)
    requires
        crate::rs::distance::rs_field_facts(g, m, w, e.len()),
        e.len() <= usize::MAX,
        fits(e, w),
        forall|i: nat| i < nn ==> #[trigger] s[i as int] == syndrome(e, i, g, m),
        forall|a: int, b: int| 0 <= a < b < locs.len() ==> locs[a] != locs[b],
        forall|i: int| 0 <= i < locs.len() ==> #[trigger] locs[i] < e.len(),
        locs.len() <= nn,
        forall|u: int| 0 <= u < e.len() && e[u] != 0 ==> locs.contains(u as usize),
        0 <= t < locs.len(),
    ensures
        magnitude(locator(erasure_points(e.len(), locs, g, m), m), s, point(e.len(), locs[t] as int, g, m), nn, m, w)
            == e[locs[t] as int],
{
    lemma_m_pos(m, w);
    let len = e.len();
    let p = erasure_points(len, locs, g, m);
    let lam = locator(p, m);
    let x = p[t];
    let tt = locs[t] as int;
    lemma_points_ok(len, locs, g, m, w);
    lemma_inverse(x, m, w);
    let z = fdiv(1, x, m, w);
    assert(mulmod(x, z, m) == 1);
    lemma_mulmod_comm(x, z, m);
    lemma_evaluator_value(e, locs, s, t, z, nn, g, m, w);
    lemma_deriv_nonzero(p, t, z, m, w);
    let d = dsum(lam, z, 0, m);
    let om = osum(lam, s, z, nn, 0, m);
    assert(mulmod(x, om, m) == mulmod(e[tt], d, m)) by {
        let ed = mulmod(e[tt], d, m);
        lemma_mulmod_assoc(e[tt], z, d, m);
        lemma_mulmod_comm(e[tt], z, m);
        lemma_mulmod_assoc(z, e[tt], d, m);
        lemma_mulmod_assoc(x, z, ed, m);
        lemma_mulmod_fits(e[tt], d, m, w);
        lemma_mul_one(ed, m, w);
    }
    crate::raid::algebra::lemma_div_mul(e[tt], d, m, w);
}

/// One step of hiding an erasure at the point `x` from the syndromes:
/// `f_i + x f_(i-1)`, read as `f_(i+1) + f_i x` for each `i` but the last.
pub open spec fn forney_step(f: Seq<nat>, x: nat, m: nat) -> Seq<nat> {
    Seq::new(f.len(), |i: int| if i + 1 < f.len() { pxor(f[i + 1], mulmod(f[i], x, m)) } else { f[i] })
}

/// The syndromes after hiding the first `k` of the points `p`.
pub open spec fn forney_all(s: Seq<nat>, p: Seq<nat>, k: nat, m: nat) -> Seq<nat>
    decreases k,
{
    if k == 0 {
        s
    } else {
        forney_step(forney_all(s, p, (k - 1) as nat, m), p[k - 1], m)
    }
}

/// `prod_(s < k) (x + p_s)`, lowest coefficient first.
pub open spec fn prod_poly(p: Seq<nat>, k: nat, m: nat) -> Seq<nat>
    decreases k,
{
    if k == 0 {
        seq![1nat]
    } else {
        crate::shamir::algebra::mul_lin(prod_poly(p, (k - 1) as nat, m), p[k - 1], m)
    }
}

/// The product vanishes at its points.
pub proof fn lemma_prod_poly_roots(p: Seq<nat>, k: nat, s: int, m: nat)
    requires
        m > 0,
        0 <= s < k <= p.len(),
    ensures
        peval(prod_poly(p, k, m), p[s], m) == 0,
    decreases k,
{
    crate::shamir::algebra::lemma_peval_mul_lin(prod_poly(p, (k - 1) as nat, m), p[k - 1], p[s], m);
    if s == k - 1 {
        lemma_pxor_self(p[s]);
        lemma_mulmod_zero(peval(prod_poly(p, (k - 1) as nat, m), p[s], m), m);
    } else {
        lemma_prod_poly_roots(p, (k - 1) as nat, s, m);
        lemma_mulmod_zero(pxor(p[s], p[k - 1]), m);
    }
}

/// The product is not zero at a field element that is none of its
/// points.
pub proof fn lemma_prod_poly_nonzero(p: Seq<nat>, k: nat, x: nat, m: nat, w: nat)
    requires
        modulus_ok(m, w),
        field_inverts(m, w),
        k <= p.len(),
        fits(p, w),
        x < exp2(w),
        forall|t: int| 0 <= t < k ==> #[trigger] p[t] != x,
    ensures
        0 < peval(prod_poly(p, k, m), x, m) < exp2(w),
    decreases k,
{
    lemma_m_pos(m, w);
    if k == 0 {
        crate::rs::distance::lemma_peval_one(x, m);
        lemma_one_fits(m, w);
    } else {
        let prev = prod_poly(p, (k - 1) as nat, m);
        lemma_prod_poly_nonzero(p, (k - 1) as nat, x, m, w);
        crate::shamir::algebra::lemma_peval_mul_lin(prev, p[k - 1], x, m);
        crate::raid::algebra::lemma_sum_nonzero(x, p[k - 1], w);
        lemma_no_zero_divisors(peval(prev, x, m), pxor(x, p[k - 1]), m, w);
        lemma_mulmod_fits(peval(prev, x, m), pxor(x, p[k - 1]), m, w);
    }
}

/// Shifting the power and multiplying by `x` is multiplying the weight
/// polynomial by `x + X`.
#[verifier::rlimit(40)]
proof fn lemma_zsum_shift(e: Seq<nat>, i: nat, b: Seq<nat>, x: nat, g: nat, m: nat)
    requires
        m > 0,
    ensures
        pxor(
            crate::rs::distance::zsum(e, i + 1, b, g, m),
            mulmod(crate::rs::distance::zsum(e, i, b, g, m), x, m),
        ) == crate::rs::distance::zsum(e, i, crate::shamir::algebra::mul_lin(b, x, m), g, m),
    decreases e.len(),
{
    if e.len() == 0 {
        lemma_mulmod_zero(x, m);
        lemma_pxor_zero(0);
    } else {
        let t = e.subrange(1, e.len() as int);
        lemma_zsum_shift(t, i, b, x, g, m);
        let x0 = point(e.len(), 0, g, m);
        let bb = peval(b, x0, m);
        let xi = powmod(x0, i, m);
        let e0 = e[0];
        let t1 = crate::rs::distance::term(e, 0, i + 1, b, g, m);
        let t0 = crate::rs::distance::term(e, 0, i, b, g, m);
        let tm = crate::rs::distance::term(e, 0, i, crate::shamir::algebra::mul_lin(b, x, m), g, m);
        crate::shamir::algebra::lemma_peval_mul_lin(b, x, x0, m);
        // tm == e0 (xi (bb x0)) + e0 (xi (bb x))
        assert(tm == pxor(mulmod(e0, mulmod(xi, mulmod(bb, x0, m), m), m), mulmod(e0, mulmod(xi, mulmod(bb, x, m), m), m))) by {
            lemma_mulmod_distrib(bb, x0, x, m);
            lemma_mulmod_distrib(xi, mulmod(bb, x0, m), mulmod(bb, x, m), m);
            lemma_mulmod_distrib(e0, mulmod(xi, mulmod(bb, x0, m), m), mulmod(xi, mulmod(bb, x, m), m), m);
        }
        // t1 == e0 (xi (bb x0))
        assert(t1 == mulmod(e0, mulmod(xi, mulmod(bb, x0, m), m), m)) by {
            assert(powmod(x0, i + 1, m) == mulmod(x0, xi, m));
            lemma_mulmod_comm(x0, xi, m);
            lemma_mulmod_assoc(xi, x0, bb, m);
            lemma_mulmod_comm(x0, bb, m);
        }
        // t0 x == e0 (xi (bb x))
        assert(mulmod(t0, x, m) == mulmod(e0, mulmod(xi, mulmod(bb, x, m), m), m)) by {
            lemma_mulmod_assoc(e0, mulmod(xi, bb, m), x, m);
            lemma_mulmod_assoc(xi, bb, x, m);
        }
        let z1 = crate::rs::distance::zsum(t, i + 1, b, g, m);
        let z0 = crate::rs::distance::zsum(t, i, b, g, m);
        lemma_distrib_left(t0, z0, x, m);
        lemma_pxor_swap(t1, z1, mulmod(t0, x, m), mulmod(z0, x, m));
    }
}

/// After hiding `k` points, syndrome `i` is the sum of `e_u X_u^i` times
/// the product of `X_u + p_s` over the hidden points.
#[verifier::rlimit(40)]
pub proof fn lemma_forney_all_zsum(e: Seq<nat>, s: Seq<nat>, p: Seq<nat>, k: nat, g: nat, m: nat, w: nat)
    requires
        modulus_ok(m, w),
        fits(e, w),
        forall|i: int| 0 <= i < s.len() ==> #[trigger] s[i] == syndrome(e, i as nat, g, m),
        k <= p.len(),
        k <= s.len(),
    ensures
        forney_all(s, p, k, m).len() == s.len(),
        forall|i: int| 0 <= i < s.len() - k
            ==> #[trigger] forney_all(s, p, k, m)[i] == crate::rs::distance::zsum(e, i as nat, prod_poly(p, k, m), g, m),
    decreases k,
{
    lemma_m_pos(m, w);
    if k == 0 {
        assert forall|i: int| 0 <= i < s.len() implies #[trigger] forney_all(s, p, 0, m)[i]
            == crate::rs::distance::zsum(e, i as nat, prod_poly(p, 0, m), g, m) by {
            crate::rs::distance::lemma_zsum_syndrome(e, i as nat, g, m, w);
        }
    } else {
        lemma_forney_all_zsum(e, s, p, (k - 1) as nat, g, m, w);
        let prev = forney_all(s, p, (k - 1) as nat, m);
        let b = prod_poly(p, (k - 1) as nat, m);
        assert forall|i: int| 0 <= i < s.len() - k implies #[trigger] forney_all(s, p, k, m)[i]
            == crate::rs::distance::zsum(e, i as nat, prod_poly(p, k, m), g, m) by {
            assert(prev[i + 1] == crate::rs::distance::zsum(e, (i + 1) as nat, b, g, m));
            assert(prev[i] == crate::rs::distance::zsum(e, i as nat, b, g, m));
            lemma_zsum_shift(e, i as nat, b, p[k - 1], g, m);
        }
    }
}

} // verus!
