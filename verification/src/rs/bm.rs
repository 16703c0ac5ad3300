//! The sums behind the Berlekamp-Massey algorithm: coefficient `k` of the
//! product of a polynomial with the syndrome series.

use vstd::prelude::*;
use crate::poly::{pxor, mulmod, exp2, lemma_pxor_zero, lemma_pxor_comm, lemma_pxor_swap, lemma_mulmod_comm,
    lemma_mulmod_assoc, lemma_mulmod_distrib};
use crate::rs::disc;
use crate::raid::algebra::{modulus_ok, lemma_mul_one};
use crate::shamir::algebra::{lemma_m_pos, lemma_mulmod_zero};

verus! {

/// Coefficient `j` of the polynomial held highest coefficient first in `p`.
pub open spec fn lc(p: Seq<nat>, j: int) -> nat {
    if 0 <= j < p.len() {
        p[p.len() - 1 - j]
    } else {
        0
    }
}

/// `sum_(t <= j) p_t s_(i - t)`, with `p_t` the coefficients of `p`.
pub open spec fn dd(p: Seq<nat>, s: Seq<nat>, i: int, j: int, m: nat) -> nat
    decreases j + 1,
{
    if j < 0 {
        0
    } else {
        pxor(dd(p, s, i, j - 1, m), mulmod(lc(p, j), s[i - j], m))
    }
}

/// With constant coefficient one, the discrepancy of the algorithm is the
/// sum.
pub proof fn lemma_dd_disc(p: Seq<nat>, s: Seq<nat>, i: int, j: int, m: nat, w: nat)
    requires
        modulus_ok(m, w),
        p.len() >= 1,
        lc(p, 0) == 1,
        0 <= j < p.len(),
        0 <= i < s.len(),
        s[i] < exp2(w),
    ensures
        disc(p, s, i, j, m) == dd(p, s, i, j, m),
    decreases j + 1,
{
    if j == 0 {
        lemma_mul_one(s[i], m, w);
        lemma_pxor_zero(s[i]);
        assert(dd(p, s, i, -1, m) == 0);
        assert(dd(p, s, i, 0, m) == pxor(dd(p, s, i, -1, m), mulmod(lc(p, 0), s[i - 0], m)));
        assert(disc(p, s, i, 0, m) == s[i]);
    } else {
        lemma_dd_disc(p, s, i, j - 1, m, w);
        assert(p[p.len() - 1 - j] == lc(p, j));
    }
}

/// Coefficients above `v` that are zero add nothing.
pub proof fn lemma_dd_top_zero(p: Seq<nat>, s: Seq<nat>, i: int, v: int, j: int, m: nat)
    requires
        m > 0,
        -1 <= v <= j,
        forall|t: int| v < t <= j ==> #[trigger] lc(p, t) == 0,
    ensures
        dd(p, s, i, j, m) == dd(p, s, i, v, m),
    decreases j - v,
{
    if j > v {
        lemma_dd_top_zero(p, s, i, v, j - 1, m);
        assert(lc(p, j) == 0);
        lemma_mulmod_zero(s[i - j], m);
        lemma_pxor_zero(dd(p, s, i, j - 1, m));
    }
}

/// The sum is linear: for `q = a + c b` coefficient by coefficient,
/// the sum of `q` is that of `a` plus `c` times that of `b`.
pub proof fn lemma_dd_lin(q: Seq<nat>, a: Seq<nat>, b: Seq<nat>, c: nat, s: Seq<nat>, i: int, j: int, m: nat)
    requires
        m > 0,
        forall|t: int| 0 <= t <= j ==> #[trigger] lc(q, t) == pxor(lc(a, t), mulmod(lc(b, t), c, m)),
    ensures
        dd(q, s, i, j, m) == pxor(dd(a, s, i, j, m), mulmod(dd(b, s, i, j, m), c, m)),
    decreases j + 1,
{
    if j < 0 {
        lemma_mulmod_zero(c, m);
        lemma_pxor_zero(0);
    } else {
        lemma_dd_lin(q, a, b, c, s, i, j - 1, m);
        let x = s[i - j];
        let at = lc(a, j);
        let bt = lc(b, j);
        let da = dd(a, s, i, j - 1, m);
        let db = dd(b, s, i, j - 1, m);
        assert(lc(q, j) == pxor(at, mulmod(bt, c, m)));
        // (at + bt c) x == at x + (bt x) c
        lemma_mulmod_comm(pxor(at, mulmod(bt, c, m)), x, m);
        lemma_mulmod_distrib(x, at, mulmod(bt, c, m), m);
        lemma_mulmod_comm(x, at, m);
        lemma_mulmod_comm(x, mulmod(bt, c, m), m);
        lemma_mulmod_assoc(bt, c, x, m);
        lemma_mulmod_comm(c, x, m);
        lemma_mulmod_assoc(bt, x, c, m);
        // (db + bt x) c == db c + (bt x) c
        lemma_mulmod_comm(pxor(db, mulmod(bt, x, m)), c, m);
        lemma_mulmod_distrib(c, db, mulmod(bt, x, m), m);
        lemma_mulmod_comm(c, db, m);
        lemma_mulmod_comm(c, mulmod(bt, x, m), m);
        lemma_pxor_swap(da, mulmod(db, c, m), mulmod(at, x, m), mulmod(mulmod(bt, x, m), c, m));
    }
}

/// The sum of `c` times `b`, coefficient by coefficient, is `c` times the
/// sum of `b`.
pub proof fn lemma_dd_scale(q: Seq<nat>, b: Seq<nat>, c: nat, s: Seq<nat>, i: int, j: int, m: nat)
    requires
        m > 0,
        forall|t: int| 0 <= t <= j ==> #[trigger] lc(q, t) == mulmod(lc(b, t), c, m),
    ensures
        dd(q, s, i, j, m) == mulmod(dd(b, s, i, j, m), c, m),
    decreases j,
{
    let z = Seq::<nat>::empty();
    assert forall|t: int| 0 <= t <= j implies #[trigger] lc(q, t) == pxor(lc(z, t), mulmod(lc(b, t), c, m)) by {
        lemma_pxor_zero(mulmod(lc(b, t), c, m));
    }
    lemma_dd_lin(q, z, b, c, s, i, j, m);
    lemma_dd_zero(z, s, i, j, m);
    lemma_pxor_zero(mulmod(dd(b, s, i, j, m), c, m));
}

/// The zero polynomial sums to zero.
pub proof fn lemma_dd_zero(z: Seq<nat>, s: Seq<nat>, i: int, j: int, m: nat)
    requires
        m > 0,
        z.len() == 0,
    ensures
        dd(z, s, i, j, m) == 0,
    decreases j + 1,
{
    if j >= 0 {
        lemma_dd_zero(z, s, i, j - 1, m);
        lemma_mulmod_zero(s[i - j], m);
        lemma_pxor_zero(0);
    }
}

/// Multiplying by `x` shifts the sums: with `q_0 = 0` and
/// `q_t = p_(t-1)`, the sum of `q` at `i` up to `j` is that of `p` at
/// `i - 1` up to `j - 1`.
pub proof fn lemma_dd_shift(q: Seq<nat>, p: Seq<nat>, s: Seq<nat>, i: int, j: int, m: nat)
    requires
        m > 0,
        lc(q, 0) == 0,
        forall|t: int| 1 <= t <= j ==> #[trigger] lc(q, t) == lc(p, t - 1),
    ensures
        dd(q, s, i, j, m) == dd(p, s, i - 1, j - 1, m),
    decreases j + 1,
{
    if j == 0 {
        lemma_mulmod_zero(s[i], m);
        lemma_pxor_zero(0);
        assert(dd(q, s, i, -1, m) == 0);
        assert(dd(q, s, i, 0, m) == pxor(dd(q, s, i, -1, m), mulmod(lc(q, 0), s[i - 0], m)));
        assert(dd(p, s, i - 1, -1, m) == 0);
    } else if j > 0 {
        lemma_dd_shift(q, p, s, i, j - 1, m);
        assert(lc(q, j) == lc(p, j - 1));
        assert(i - j == (i - 1) - (j - 1));
        assert(dd(p, s, i - 1, j - 1, m) == pxor(dd(p, s, i - 1, j - 2, m), mulmod(lc(p, j - 1), s[(i - 1) - (j - 1)], m)));
    }
}

/// The state of the algorithm before step `i`: the locator `lam`
/// (constant coefficient one, degree at most `v`) generates the syndromes
/// from `v` to `i - 1`; the kept polynomial `prev` (degree at most `u`)
/// has zero sums from `u` to `i - 2` and sum one at `i - 1`.
pub open spec fn bm_state(lam: Seq<nat>, prev: Seq<nat>, s: Seq<nat>, i: int, v: int, u: int, m: nat) -> bool {
    &&& lam.len() == s.len() + 1
    &&& prev.len() == s.len() + 1
    &&& 0 <= v
    &&& 0 <= u
    &&& u + v <= i
    &&& i <= s.len()
    &&& lc(lam, 0) == 1
    &&& forall|t: int| v < t ==> #[trigger] lc(lam, t) == 0
    &&& forall|t: int| u < t ==> #[trigger] lc(prev, t) == 0
    &&& forall|k: int| v <= k < i ==> #[trigger] dd(lam, s, k, k, m) == 0
    &&& forall|k: int| u <= k < i - 1 ==> #[trigger] dd(prev, s, k, k, m) == 0
    &&& u <= i - 1 ==> dd(prev, s, i - 1, i - 1, m) == 1
}

/// The sums of `x` times `p` (with the top coefficient of `p` zero) are
/// those of `p` one place earlier.
proof fn lemma_rotated(p: Seq<nat>, r: Seq<nat>, s: Seq<nat>, u: int, m: nat)
    requires
        m > 0,
        p.len() >= 2,
        r == p.subrange(1, p.len() as int).push(p[0]),
        0 <= u < p.len() - 1,
        forall|t: int| u < t ==> #[trigger] lc(p, t) == 0,
    ensures
        lc(r, 0) == 0,
        forall|t: int| 1 <= t ==> #[trigger] lc(r, t) == lc(p, t - 1),
        forall|k: int| 0 <= k ==> #[trigger] dd(r, s, k, k, m) == dd(p, s, k - 1, k - 1, m),
{
    let n = p.len();
    assert(lc(p, n - 1) == 0);
    assert(lc(r, 0) == r[n - 1]);
    assert forall|t: int| 1 <= t implies #[trigger] lc(r, t) == lc(p, t - 1) by {
        if t < n {
            assert(r[n - 1 - t] == p[n - t]);
        }
    }
    assert forall|k: int| 0 <= k implies #[trigger] dd(r, s, k, k, m) == dd(p, s, k - 1, k - 1, m) by {
        lemma_dd_shift(r, p, s, k, k, m);
    }
}

/// The step that keeps the length: `lam + delta x prev`.
#[verifier::rlimit(40)]
proof fn lemma_bm_keep(lam0: Seq<nat>, prev0: Seq<nat>, prev_r: Seq<nat>, lam1: Seq<nat>, delta: nat, s: Seq<nat>, i: int, v: int, u: int, m: nat, w: nat)
    requires
        modulus_ok(m, w),
        bm_state(lam0, prev0, s, i, v, u, m),
        0 <= i < s.len(),
        delta == dd(lam0, s, i, i, m),
        delta != 0,
        delta < exp2(w),
        prev_r.len() == lam0.len(),
        lc(prev_r, 0) == 0,
        forall|t: int| 1 <= t ==> #[trigger] lc(prev_r, t) == lc(prev0, t - 1),
        forall|k: int| 0 <= k ==> #[trigger] dd(prev_r, s, k, k, m) == dd(prev0, s, k - 1, k - 1, m),
        v > i - v,
        lam1 == Seq::new(lam0.len(), |k: int| pxor(lam0[k], mulmod(prev_r[k], delta, m))),
    ensures
        bm_state(lam1, prev_r, s, i + 1, v, u + 1, m),
{
    lemma_m_pos(m, w);
    let n = lam0.len();
    assert forall|t: int| 0 <= t <= i implies #[trigger] lc(lam1, t) == pxor(lc(lam0, t), mulmod(lc(prev_r, t), delta, m)) by {
        if t < n {
            assert(lam1[n - 1 - t] == pxor(lam0[n - 1 - t], mulmod(prev_r[n - 1 - t], delta, m)));
        }
    }
    assert forall|t: int| v < t implies #[trigger] lc(lam1, t) == 0 by {
        if t < n {
            assert(lam1[n - 1 - t] == pxor(lam0[n - 1 - t], mulmod(prev_r[n - 1 - t], delta, m)));
            assert(lc(prev_r, t) == lc(prev0, t - 1));
            assert(lc(lam0, t) == 0);
            assert(lc(prev0, t - 1) == 0);
            assert(lam0[n - 1 - t] == lc(lam0, t));
            assert(prev_r[n - 1 - t] == lc(prev_r, t));
            lemma_mulmod_zero(delta, m);
            lemma_pxor_zero(0);
        }
    }
    assert(lam1[n - 1] == pxor(lam0[n - 1], mulmod(prev_r[n - 1], delta, m)));
    lemma_mulmod_zero(delta, m);
    lemma_pxor_zero(1);
    lemma_mul_one(delta, m, w);
    assert forall|k: int| v <= k < i + 1 implies #[trigger] dd(lam1, s, k, k, m) == 0 by {
        lemma_dd_lin(lam1, lam0, prev_r, delta, s, k, k, m);
        if k < i {
            assert(dd(prev0, s, k - 1, k - 1, m) == 0);
            lemma_pxor_zero(0);
        } else {
            crate::poly::lemma_pxor_self(delta);
        }
    }
    assert forall|k: int| u + 1 <= k < i implies #[trigger] dd(prev_r, s, k, k, m) == 0 by {
        assert(dd(prev0, s, k - 1, k - 1, m) == 0);
    }
}

/// The coefficients after the lengthening step: `prev1 = lam0 / delta`
/// and `lam1 = lam0 + delta x prev0`.
#[verifier::rlimit(40)]
proof fn lemma_swap_coefs(lam0: Seq<nat>, prev_r: Seq<nat>, lam1: Seq<nat>, prev1: Seq<nat>, delta: nat, m: nat, w: nat)
    requires
        modulus_ok(m, w),
        crate::raid::algebra::field_inverts(m, w),
        crate::shamir::algebra::fits(lam0, w),
        0 < delta < exp2(w),
        prev_r.len() == lam0.len(),
        prev1 == Seq::new(lam0.len(), |k: int| mulmod(lam0[k], crate::raid::fdiv(1, delta, m, w), m)),
        lam1 == Seq::new(lam0.len(), |k: int| pxor(mulmod(prev_r[k], delta, m), mulmod(prev1[k], delta, m))),
    ensures
        forall|t: int| 0 <= t ==> #[trigger] lc(prev1, t) == mulmod(lc(lam0, t), crate::raid::fdiv(1, delta, m, w), m),
        forall|t: int| 0 <= t ==> #[trigger] lc(lam1, t) == pxor(lc(lam0, t), mulmod(lc(prev_r, t), delta, m)),
        mulmod(delta, crate::raid::fdiv(1, delta, m, w), m) == 1,
{
    lemma_m_pos(m, w);
    let n = lam0.len();
    let idl = crate::raid::fdiv(1, delta, m, w);
    crate::rs::forney::lemma_inverse(delta, m, w);
    lemma_mulmod_comm(delta, idl, m);
    lemma_mulmod_zero(idl, m);
    lemma_mulmod_zero(delta, m);
    lemma_pxor_zero(0);
    assert forall|t: int| 0 <= t implies #[trigger] lc(prev1, t) == mulmod(lc(lam0, t), idl, m) by {
        if t < n {
            assert(prev1[n - 1 - t] == mulmod(lam0[n - 1 - t], idl, m));
        }
    }
    assert forall|t: int| 0 <= t implies #[trigger] lc(lam1, t) == pxor(lc(lam0, t), mulmod(lc(prev_r, t), delta, m)) by {
        if t < n {
            let a = lam0[n - 1 - t];
            assert(lam1[n - 1 - t] == pxor(mulmod(prev_r[n - 1 - t], delta, m), mulmod(prev1[n - 1 - t], delta, m)));
            lemma_mulmod_assoc(a, idl, delta, m);
            lemma_mul_one(a, m, w);
            lemma_pxor_comm(mulmod(prev_r[n - 1 - t], delta, m), a);
        }
    }
}

/// The step that lengthens the locator: the old one, scaled, is kept.
#[verifier::rlimit(40)]
proof fn lemma_bm_swap(lam0: Seq<nat>, prev0: Seq<nat>, prev_r: Seq<nat>, lam1: Seq<nat>, prev1: Seq<nat>, delta: nat, s: Seq<nat>, i: int, v: int, u: int, m: nat, w: nat)
    requires
        modulus_ok(m, w),
        bm_state(lam0, prev0, s, i, v, u, m),
        0 <= i < s.len(),
        delta == dd(lam0, s, i, i, m),
        delta != 0,
        delta < exp2(w),
        prev_r.len() == lam0.len(),
        lc(prev_r, 0) == 0,
        forall|t: int| 1 <= t ==> #[trigger] lc(prev_r, t) == lc(prev0, t - 1),
        forall|k: int| 0 <= k ==> #[trigger] dd(prev_r, s, k, k, m) == dd(prev0, s, k - 1, k - 1, m),
        crate::raid::algebra::field_inverts(m, w),
        crate::shamir::algebra::fits(lam0, w),
        v <= i - v,
        prev1 == Seq::new(lam0.len(), |k: int| mulmod(lam0[k], crate::raid::fdiv(1, delta, m, w), m)),
        lam1 == Seq::new(lam0.len(), |k: int| pxor(mulmod(prev_r[k], delta, m), mulmod(prev1[k], delta, m))),
    ensures
        bm_state(lam1, prev1, s, i + 1, i + 1 - v, v, m),
{
    lemma_m_pos(m, w);
    let idl = crate::raid::fdiv(1, delta, m, w);
    lemma_swap_coefs(lam0, prev_r, lam1, prev1, delta, m, w);
    lemma_mulmod_zero(delta, m);
    lemma_mulmod_zero(idl, m);
    lemma_pxor_zero(0);
    lemma_pxor_zero(1);
    lemma_mul_one(delta, m, w);
    let v1 = i + 1 - v;
    assert forall|t: int| v1 < t implies #[trigger] lc(lam1, t) == 0 by {
        assert(lc(lam0, t) == 0);
        assert(lc(prev_r, t) == lc(prev0, t - 1));
        assert(lc(prev0, t - 1) == 0);
    }
    assert forall|t: int| v < t implies #[trigger] lc(prev1, t) == 0 by {
        assert(lc(lam0, t) == 0);
    }
    assert(lc(lam1, 0) == pxor(lc(lam0, 0), mulmod(lc(prev_r, 0), delta, m)));
    assert forall|k: int| v1 <= k < i + 1 implies #[trigger] dd(lam1, s, k, k, m) == 0 by {
        lemma_dd_lin(lam1, lam0, prev_r, delta, s, k, k, m);
        if k < i {
            assert(dd(prev0, s, k - 1, k - 1, m) == 0);
        } else {
            crate::poly::lemma_pxor_self(delta);
        }
    }
    assert forall|k: int| v <= k <= i implies #[trigger] dd(prev1, s, k, k, m) == mulmod(dd(lam0, s, k, k, m), idl, m) by {
        lemma_dd_scale(prev1, lam0, idl, s, k, k, m);
    }
    assert forall|k: int| v <= k < i implies #[trigger] dd(prev1, s, k, k, m) == 0 by {
        assert(dd(prev1, s, k, k, m) == mulmod(dd(lam0, s, k, k, m), idl, m));
    }
    assert(dd(prev1, s, i, i, m) == mulmod(delta, idl, m));
}

/// One step of the algorithm keeps its state.
#[verifier::rlimit(60)]
pub proof fn lemma_bm_step(
    lam0: Seq<nat>,
    prev0: Seq<nat>,
    prev_r: Seq<nat>,
    lam1: Seq<nat>,
    prev1: Seq<nat>,
    delta: nat,
    s: Seq<nat>,
    i: int,
    v: int,
    u: int,
    m: nat,
    w: nat,
)
    requires
        modulus_ok(m, w),
        crate::raid::algebra::field_inverts(m, w),
        bm_state(lam0, prev0, s, i, v, u, m),
        0 <= i < s.len(),
        crate::shamir::algebra::fits(s, w),
        crate::shamir::algebra::fits(lam0, w),
        delta == disc(lam0, s, i, v, m),
        delta < exp2(w),
        prev_r == prev0.subrange(1, prev0.len() as int).push(prev0[0]),
        delta == 0 ==> lam1 == lam0 && prev1 == prev_r,
        delta != 0 && v <= i - v ==> prev1 == Seq::new(lam0.len(), |k: int| mulmod(lam0[k], crate::raid::fdiv(1, delta, m, w), m))
            && lam1 == Seq::new(lam0.len(), |k: int| pxor(mulmod(prev_r[k], delta, m), mulmod(prev1[k], delta, m))),
        delta != 0 && v > i - v ==> lam1 == Seq::new(lam0.len(), |k: int| pxor(lam0[k], mulmod(prev_r[k], delta, m)))
            && prev1 == prev_r,
    ensures
        delta == dd(lam0, s, i, i, m),
        bm_state(lam1, prev1, s, i + 1,
            if delta != 0 && v <= i - v { i + 1 - v } else { v },
            if delta != 0 && v <= i - v { v } else { u + 1 },
            m),
{
    lemma_m_pos(m, w);
    let n = lam0.len();
    lemma_dd_disc(lam0, s, i, v, m, w);
    lemma_dd_top_zero(lam0, s, i, v, i, m);
    lemma_rotated(prev0, prev_r, s, u, m);
    assert(dd(prev_r, s, i, i, m) == dd(prev0, s, i - 1, i - 1, m));
    if delta == 0 {
        assert forall|k: int| u + 1 <= k < i implies #[trigger] dd(prev_r, s, k, k, m) == 0 by {
            assert(dd(prev0, s, k - 1, k - 1, m) == 0);
        }
    } else if v > i - v {
        lemma_bm_keep(lam0, prev0, prev_r, lam1, delta, s, i, v, u, m, w);
    } else {
        lemma_bm_swap(lam0, prev0, prev_r, lam1, prev1, delta, s, i, v, u, m, w);
    }
}

/// The coefficients `lam_v, ..., lam_0` of the locator, highest first.
pub open spec fn top_part(lam: Seq<nat>, v: int) -> Seq<nat> {
    lam.subrange(lam.len() - 1 - v, lam.len() as int)
}

/// For syndromes of `e`, the sum of the locator up to `j` is a sum of
/// syndromes weighted by its coefficients.
proof fn lemma_dd_tsum(p: Seq<nat>, s: Seq<nat>, e: Seq<nat>, k: int, j: int, g: nat, m: nat)
    requires
        0 <= j <= k < s.len(),
        j < p.len(),
        forall|t: int| 0 <= t < s.len() ==> #[trigger] s[t] == crate::rs::syndrome(e, t as nat, g, m),
    ensures
        dd(p, s, k, j, m) == crate::rs::distance::tsum(top_part(p, j), (k - j) as nat, e, g, m),
    decreases j,
{
    let n = p.len();
    let b = top_part(p, j);
    assert(b[0] == lc(p, j));
    assert(s[k - j] == crate::rs::syndrome(e, (k - j) as nat, g, m));
    let kn = (k - j) as nat;
    assert(crate::rs::distance::tsum(b, kn, e, g, m) == pxor(
        mulmod(b[0], crate::rs::syndrome(e, kn, g, m), m),
        crate::rs::distance::tsum(b.subrange(1, b.len() as int), kn + 1, e, g, m),
    ));
    assert(dd(p, s, k, j, m) == pxor(dd(p, s, k, j - 1, m), mulmod(lc(p, j), s[k - j], m)));
    if j == 0 {
        let z = b.subrange(1, b.len() as int);
        assert(z =~= Seq::<nat>::empty());
        assert(crate::rs::distance::tsum(z, kn + 1, e, g, m) == 0);
        lemma_pxor_zero(mulmod(lc(p, 0), s[k], m));
        assert(dd(p, s, k, -1, m) == 0);
    } else {
        lemma_dd_tsum(p, s, e, k, j - 1, g, m);
        assert(b.subrange(1, b.len() as int) =~= top_part(p, j - 1));
        assert(kn + 1 == (k - (j - 1)) as nat);
        lemma_pxor_comm(mulmod(lc(p, j), s[k - j], m), dd(p, s, k, j - 1, m));
    }
}

/// `e` with each entry `e_j` weighted by `b(X_j)`.
pub open spec fn weigh(e: Seq<nat>, b: Seq<nat>, g: nat, m: nat) -> Seq<nat> {
    Seq::new(e.len(), |j: int| mulmod(e[j], crate::shamir::peval(b, crate::rs::distance::point(e.len(), j, g, m), m), m))
}

/// The weighted sums of `e` are the syndromes of `e` weighted by `b`.
pub proof fn lemma_weigh_zsum(e: Seq<nat>, b: Seq<nat>, k: nat, g: nat, m: nat, w: nat)
    requires
        modulus_ok(m, w),
    ensures
        crate::rs::distance::zsum(weigh(e, b, g, m), k, seq![1nat], g, m) == crate::rs::distance::zsum(e, k, b, g, m),
    decreases e.len(),
{
    lemma_m_pos(m, w);
    if e.len() > 0 {
        let t = e.subrange(1, e.len() as int);
        lemma_weigh_zsum(t, b, k, g, m, w);
        assert(weigh(e, b, g, m).subrange(1, e.len() as int) =~= weigh(t, b, g, m));
        let x = crate::rs::distance::point(e.len(), 0, g, m);
        let xk = crate::poly::powmod(x, k, m);
        let bx = crate::shamir::peval(b, x, m);
        crate::rs::distance::lemma_peval_one(x, m);
        crate::rs::distance::lemma_powmod_fits(x, k, m, w);
        lemma_mul_one(xk, m, w);
        lemma_mulmod_assoc(e[0], bx, xk, m);
        lemma_mulmod_comm(bx, xk, m);
    }
}

/// A locator that generates the syndromes of `e` from `v` up to `kk`,
/// where `e` has fewer non-zero entries than `kk - v`, generates all of
/// them, and its reversal `top_part(lam, v)` vanishes at every error
/// point.
#[verifier::rlimit(40)]
pub proof fn lemma_generator_roots(
    lam: Seq<nat>,
    v: int,
    kk: int,
    s: Seq<nat>,
    e: Seq<nat>,
    errs: Seq<usize>,
    g: nat,
    m: nat,
    w: nat,
)
    requires
        crate::rs::distance::rs_field_facts(g, m, w, e.len()),
        e.len() <= usize::MAX,
        crate::shamir::algebra::fits(e, w),
        crate::shamir::algebra::fits(lam, w),
        forall|t: int| 0 <= t < s.len() ==> #[trigger] s[t] == crate::rs::syndrome(e, t as nat, g, m),
        forall|j: int| 0 <= j < e.len() && e[j] != 0 ==> errs.contains(j as usize),
        0 <= v < lam.len(),
        errs.len() + v <= kk <= s.len(),
        forall|t: int| v < t ==> #[trigger] lc(lam, t) == 0,
        forall|k: int| v <= k < kk ==> #[trigger] dd(lam, s, k, k, m) == 0,
    ensures
        forall|k: int| v <= k < s.len() ==> #[trigger] dd(lam, s, k, k, m) == 0,
        forall|j: int| 0 <= j < e.len() && e[j] != 0
            ==> #[trigger] crate::shamir::peval(top_part(lam, v), crate::rs::distance::point(e.len(), j, g, m), m) == 0,
{
    lemma_m_pos(m, w);
    let b = top_part(lam, v);
    let e2 = weigh(e, b, g, m);
    assert forall|t: int| 0 <= t < b.len() implies #[trigger] b[t] < exp2(w) by {
        assert(b[t] == lam[lam.len() - 1 - v + t]);
    }
    assert forall|j: int| 0 <= j < e2.len() implies #[trigger] e2[j] < exp2(w) by {
        crate::shamir::algebra::lemma_mulmod_fits(e[j], crate::shamir::peval(b, crate::rs::distance::point(e.len(), j, g, m), m), m, w);
    }
    // the sums of lam are the syndromes of e2
    assert forall|k: int| v <= k < s.len() implies #[trigger] dd(lam, s, k, k, m)
        == crate::rs::syndrome(e2, (k - v) as nat, g, m) by {
        lemma_dd_top_zero(lam, s, k, v, k, m);
        lemma_dd_tsum(lam, s, e, k, v, g, m);
        crate::rs::distance::lemma_tsum_zsum(b, (k - v) as nat, e, g, m, w);
        lemma_weigh_zsum(e, b, (k - v) as nat, g, m, w);
        crate::rs::distance::lemma_zsum_syndrome(e2, (k - v) as nat, g, m, w);
    }
    assert forall|i: nat| i < kk - v implies #[trigger] crate::rs::syndrome(e2, i, g, m) == 0 by {
        assert(dd(lam, s, v + i, v + i, m) == crate::rs::syndrome(e2, i, g, m));
    }
    assert forall|j: int| 0 <= j < e2.len() && e2[j] != 0 implies errs.contains(j as usize) by {
        if e[j] == 0 {
            lemma_mulmod_zero(crate::shamir::peval(b, crate::rs::distance::point(e.len(), j, g, m), m), m);
        }
    }
    crate::rs::distance::lemma_small_codeword_zero(e2, errs, (kk - v) as nat, g, m, w);
    assert forall|k: int| v <= k < s.len() implies #[trigger] dd(lam, s, k, k, m) == 0 by {
        let kp = (k - v) as nat;
        assert forall|j: int| 0 <= j < e2.len() && j != -1 implies #[trigger] crate::rs::distance::term(e2, j, kp, seq![1nat], g, m) == 0 by {
            let x = crate::rs::distance::point(e2.len(), j, g, m);
            assert(e2[j] == 0);
            lemma_mulmod_zero(mulmod(crate::poly::powmod(x, kp, m), crate::shamir::peval(seq![1nat], x, m), m), m);
        }
        crate::rs::distance::lemma_zsum_single(e2, kp, seq![1nat], -1, g, m);
        crate::rs::distance::lemma_zsum_syndrome(e2, kp, g, m, w);
    }
    assert forall|j: int| 0 <= j < e.len() && e[j] != 0
        implies #[trigger] crate::shamir::peval(b, crate::rs::distance::point(e.len(), j, g, m), m) == 0 by {
        let x = crate::rs::distance::point(e.len(), j, g, m);
        let bx = crate::shamir::peval(b, x, m);
        assert(e2[j] == 0);
        crate::rs::distance::lemma_powmod_fits(g, (e.len() - 1 - j) as nat, m, w);
        crate::shamir::algebra::lemma_peval_fits(b, x, m, w);
        if bx != 0 {
            crate::raid::algebra::lemma_no_zero_divisors(e[j], bx, m, w);
        }
    }
}

/// A polynomial (lowest coefficient first) that vanishes at as many
/// distinct non-zero points as it has coefficients has only zero
/// coefficients.
pub proof fn lemma_coeffs_zero(f: Seq<nat>, zs: Seq<nat>, m: nat, w: nat)
    requires
        modulus_ok(m, w),
        crate::raid::algebra::field_inverts(m, w),
        crate::shamir::algebra::fits(f, w),
        crate::shamir::algebra::fits(zs, w),
        crate::shamir::algebra::distinct(zs),
        zs.len() >= f.len(),
        forall|t: int| 0 <= t < zs.len() ==> #[trigger] zs[t] != 0,
        forall|t: int| 0 <= t < zs.len() ==> crate::shamir::peval(f, #[trigger] zs[t], m) == 0,
    ensures
        forall|i: int| 0 <= i < f.len() ==> #[trigger] f[i] == 0,
    decreases f.len(),
{
    lemma_m_pos(m, w);
    if f.len() > 0 {
        let n = f.len();
        let zs1 = zs.subrange(0, n as int);
        assert forall|t: int| 0 <= t < zs1.len() implies #[trigger] zs1[t] < exp2(w) by {
            assert(zs1[t] == zs[t]);
        }
        assert forall|t: int| 0 <= t < zs1.len() implies crate::shamir::peval(f, #[trigger] zs1[t], m) == 0 by {
            assert(zs1[t] == zs[t]);
        }
        crate::shamir::algebra::lemma_roots(f, zs1, m, w);
        let f1 = f.subrange(1, n as int);
        // f[0] is the value at zero
        assert(crate::shamir::peval(f, 0, m) == 0);
        lemma_mulmod_zero(crate::shamir::peval(f1, 0, m), m);
        lemma_pxor_zero(f[0]);
        assert(f[0] == 0);
        assert forall|t: int| 0 <= t < zs.len() implies crate::shamir::peval(f1, #[trigger] zs[t], m) == 0 by {
            let z = zs[t];
            let q = crate::shamir::peval(f1, z, m);
            assert(crate::shamir::peval(f, z, m) == pxor(mulmod(q, z, m), f[0]));
            lemma_pxor_zero(mulmod(q, z, m));
            assert forall|i: int| 0 <= i < f1.len() implies #[trigger] f1[i] < exp2(w) by {
                assert(f1[i] == f[i + 1]);
            }
            crate::shamir::algebra::lemma_peval_fits(f1, z, m, w);
            if q != 0 {
                crate::raid::algebra::lemma_no_zero_divisors(q, z, m, w);
            }
        }
        assert forall|i: int| 0 <= i < f1.len() implies #[trigger] f1[i] < exp2(w) by {
            assert(f1[i] == f[i + 1]);
        }
        lemma_coeffs_zero(f1, zs, m, w);
        assert forall|i: int| 0 <= i < f.len() implies #[trigger] f[i] == 0 by {
            if i > 0 {
                assert(f1[i - 1] == f[i]);
            }
        }
    }
}

} // verus!
