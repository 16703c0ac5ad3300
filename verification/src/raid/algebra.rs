//! The algebra behind RAID repair: in a field, each of the solving formulas
//! gives back the lost words from what they contributed to the parities.

use vstd::prelude::*;
use crate::poly::{
    exp2, bitlen, pxor, mulmod, powmod, lemma_exp2_pos, lemma_pxor_assoc, lemma_pxor_comm,
    lemma_pxor_cancel, lemma_pxor_zero, lemma_pxor_self, lemma_pxor_swap, lemma_pxor_eq_zero,
    lemma_pxor_bound, lemma_mulmod_comm, lemma_mulmod_assoc, lemma_mulmod_distrib,
    lemma_mulmod_one, lemma_pmod_bound, lemma_bitlen_le, lemma_pmod_small,
};
use crate::raid::{
    fdiv, solve_one, solve_p_and, solve_q_r, solve_pqr, coef, parity, zeroed, lemma_parity_update, Word,
    column, delta_of, completes, lists_bad_data, bad_has, raid_field_facts, data_restored, views,
};

verus! {

/// Every non-zero element `b` of the field of `w`-digit elements modulo `m`
/// satisfies `b^(2^w - 1) == 1`.
pub open spec fn field_inverts(m: nat, w: nat) -> bool {
    forall|b: nat| 0 < b < exp2(w) ==> #[trigger] powmod(b, (exp2(w) - 1) as nat, m) == 1
}

pub open spec fn modulus_ok(m: nat, w: nat) -> bool {
    bitlen(m) == w + 1 && w >= 1
}

proof fn lemma_reduced(a: nat, b: nat, m: nat, w: nat)
    requires
        modulus_ok(m, w),
    ensures
        mulmod(a, b, m) < exp2(w),
{
    lemma_pmod_bound(crate::poly::pmul(a, b), m);
}

/// `(a * b) / b == a` for non-zero `b`.
pub proof fn lemma_div_mul(a: nat, b: nat, m: nat, w: nat)
    requires
        modulus_ok(m, w),
        field_inverts(m, w),
        a < exp2(w),
        0 < b < exp2(w),
    ensures
        fdiv(mulmod(a, b, m), b, m, w) == a,
{
    assert(powmod(b, (exp2(w) - 1) as nat, m) == 1);
    crate::field::lemma_div_laws(a, b, m, w);
}

/// A product of non-zero elements is not zero.
pub proof fn lemma_no_zero_divisors(a: nat, b: nat, m: nat, w: nat)
    requires
        modulus_ok(m, w),
        field_inverts(m, w),
        0 < a < exp2(w),
        0 < b < exp2(w),
    ensures
        mulmod(a, b, m) != 0,
{
    lemma_exp2_pos(w);
    if mulmod(a, b, m) == 0 {
        lemma_div_mul(a, b, m, w);
        crate::poly::lemma_pmul_zero(powmod(b, (exp2(w) - 2) as nat, m));
        lemma_bitlen_le(0, w);
        lemma_pmod_small(0, m);
        assert(fdiv(0, b, m, w) == 0);
    }
}

/// `a * 1 == a` for reduced `a`.
pub proof fn lemma_mul_one(a: nat, m: nat, w: nat)
    requires
        modulus_ok(m, w),
        a < exp2(w),
    ensures
        mulmod(a, 1, m) == a,
        mulmod(1, a, m) == a,
{
    lemma_exp2_pos(w);
    lemma_mulmod_one(a, m);
    lemma_bitlen_le(a, w);
    lemma_pmod_small(a, m);
}

/// `(a + b) * c == a * c + b * c`.
pub proof fn lemma_distrib_left(a: nat, b: nat, c: nat, m: nat)
    requires
        m > 0,
    ensures
        mulmod(pxor(a, b), c, m) == pxor(mulmod(a, c, m), mulmod(b, c, m)),
{
    lemma_mulmod_comm(pxor(a, b), c, m);
    lemma_mulmod_distrib(c, a, b, m);
    lemma_mulmod_comm(a, c, m);
    lemma_mulmod_comm(b, c, m);
}

/// `(a + b) + (c + b) == a + c`.
proof fn lemma_xor_drop(a: nat, b: nat, c: nat)
    ensures
        pxor(pxor(a, b), pxor(c, b)) == pxor(a, c),
{
    lemma_pxor_swap(a, b, c, b);
    lemma_pxor_self(b);
    lemma_pxor_zero(pxor(a, c));
}

/// Distinct elements have a non-zero sum.
pub proof fn lemma_sum_nonzero(x: nat, y: nat, w: nat)
    requires
        x != y,
        x < exp2(w),
        y < exp2(w),
    ensures
        0 < pxor(x, y) < exp2(w),
{
    lemma_pxor_bound(x, y, w);
    if pxor(x, y) == 0 {
        lemma_pxor_eq_zero(x, y);
    }
}

/// One lost word comes back from one parity: `(a * c) / c == a`.
pub proof fn lemma_solve_one(a: nat, c: nat, m: nat, w: nat)
    requires
        modulus_ok(m, w),
        field_inverts(m, w),
        a < exp2(w),
        0 < c < exp2(w),
    ensures
        solve_one(mulmod(a, c, m), c, m, w) == a,
{
    lemma_div_mul(a, c, m, w);
}

/// Two lost words come back from the plain sum and a weighted sum with
/// distinct weights.
pub proof fn lemma_solve_p_and(ax: nat, ay: nat, bx: nat, by: nat, m: nat, w: nat)
    requires
        modulus_ok(m, w),
        field_inverts(m, w),
        ax < exp2(w),
        ay < exp2(w),
        bx < exp2(w),
        by < exp2(w),
        bx != by,
    ensures
        solve_p_and(pxor(ax, ay), pxor(mulmod(ax, bx, m), mulmod(ay, by, m)), bx, by, m, w) == (ax, ay),
{
    lemma_exp2_pos(w);
    let s = pxor(bx, by);
    lemma_distrib_left(ax, ay, by, m);
    lemma_xor_drop(mulmod(ax, bx, m), mulmod(ay, by, m), mulmod(ax, by, m));
    lemma_mulmod_distrib(ax, bx, by, m);
    lemma_sum_nonzero(bx, by, w);
    lemma_div_mul(ax, s, m, w);
    lemma_pxor_comm(ax, ay);
    lemma_pxor_cancel(ay, ax);
}

/// Two lost words come back from the sums weighted by distinct non-zero
/// `gx`, `gy` and by their squares.
pub proof fn lemma_solve_q_r(ax: nat, ay: nat, gx: nat, gy: nat, m: nat, w: nat)
    requires
        modulus_ok(m, w),
        field_inverts(m, w),
        ax < exp2(w),
        ay < exp2(w),
        0 < gx < exp2(w),
        0 < gy < exp2(w),
        gx != gy,
    ensures
        solve_q_r(
            pxor(mulmod(ax, gx, m), mulmod(ay, gy, m)),
            pxor(mulmod(ax, mulmod(gx, gx, m), m), mulmod(ay, mulmod(gy, gy, m), m)),
            gx,
            gy,
            m,
            w,
        ) == (ax, ay),
{
    lemma_exp2_pos(w);
    let x1 = mulmod(ax, gx, m);
    let y1 = mulmod(ay, gy, m);
    let dq = pxor(x1, y1);
    let xh = mulmod(ax, mulmod(gx, gx, m), m);
    let yh = mulmod(ay, mulmod(gy, gy, m), m);
    // dq * gy == x1 * gy + y1 * gy, and y1 * gy == yh
    lemma_distrib_left(x1, y1, gy, m);
    lemma_mulmod_assoc(ay, gy, gy, m);
    lemma_mulmod_assoc(ax, gx, gy, m);
    lemma_xor_drop(xh, yh, mulmod(x1, gy, m));
    // xh + ax (gx gy) == ax (gx gx + gx gy) == ax (gx (gx + gy))
    lemma_mulmod_distrib(ax, mulmod(gx, gx, m), mulmod(gx, gy, m), m);
    lemma_mulmod_distrib(gx, gx, gy, m);
    let s = pxor(gx, gy);
    lemma_sum_nonzero(gx, gy, w);
    let den = mulmod(gx, s, m);
    lemma_reduced(gx, s, m, w);
    lemma_no_zero_divisors(gx, s, m, w);
    lemma_div_mul(ax, den, m, w);
    // dy: (dq + ax gx) / gy == (ay gy) / gy
    lemma_pxor_comm(x1, y1);
    lemma_pxor_cancel(y1, x1);
    lemma_div_mul(ay, gy, m, w);
}

/// `a * 0 == 0`.
proof fn lemma_mul_zero(a: nat, m: nat, w: nat)
    requires
        modulus_ok(m, w),
    ensures
        mulmod(a, 0, m) == 0,
        mulmod(0, a, m) == 0,
{
    lemma_exp2_pos(w);
    crate::poly::lemma_pmul_zero(a);
    lemma_bitlen_le(0, w);
    lemma_pmod_small(0, m);
}

/// `(a1 + a2 + a3) * c == a1 c + a2 c + a3 c`.
proof fn lemma_distrib3(a1: nat, a2: nat, a3: nat, c: nat, m: nat)
    requires
        m > 0,
    ensures
        mulmod(pxor(pxor(a1, a2), a3), c, m)
            == pxor(pxor(mulmod(a1, c, m), mulmod(a2, c, m)), mulmod(a3, c, m)),
{
    lemma_distrib_left(pxor(a1, a2), a3, c, m);
    lemma_distrib_left(a1, a2, c, m);
}

/// Adding two sums of three term by term.
proof fn lemma_regroup2(x1: nat, x2: nat, x3: nat, y1: nat, y2: nat, y3: nat)
    ensures
        pxor(pxor(pxor(x1, x2), x3), pxor(pxor(y1, y2), y3))
            == pxor(pxor(pxor(x1, y1), pxor(x2, y2)), pxor(x3, y3)),
{
    lemma_pxor_swap(pxor(x1, x2), x3, pxor(y1, y2), y3);
    lemma_pxor_swap(x1, x2, y1, y2);
}

/// Adding three sums of three term by term.
proof fn lemma_regroup3(x1: nat, x2: nat, x3: nat, y1: nat, y2: nat, y3: nat, z1: nat, z2: nat, z3: nat)
    ensures
        pxor(pxor(pxor(pxor(x1, x2), x3), pxor(pxor(y1, y2), y3)), pxor(pxor(z1, z2), z3))
            == pxor(pxor(pxor(pxor(x1, y1), z1), pxor(pxor(x2, y2), z2)), pxor(pxor(x3, y3), z3)),
{
    lemma_regroup2(x1, x2, x3, y1, y2, y3);
    lemma_regroup2(pxor(x1, y1), pxor(x2, y2), pxor(x3, y3), z1, z2, z3);
}

/// `a (b1 + b2 + b3) == a b1 + a b2 + a b3`.
proof fn lemma_distrib3_right(a: nat, b1: nat, b2: nat, b3: nat, m: nat)
    requires
        m > 0,
    ensures
        mulmod(a, pxor(pxor(b1, b2), b3), m)
            == pxor(pxor(mulmod(a, b1, m), mulmod(a, b2, m)), mulmod(a, b3, m)),
{
    lemma_mulmod_distrib(a, pxor(b1, b2), b3, m);
    lemma_mulmod_distrib(a, b1, b2, m);
}

/// The term of word `t` in the numerator of `dx`: `a_t (g_t g_t + g_t (gy + gz) + gy gz)`.
proof fn lemma_pqr_term(a: nat, g: nat, gy: nat, gz: nat, m: nat)
    requires
        m > 0,
    ensures
        pxor(pxor(mulmod(a, mulmod(g, g, m), m), mulmod(mulmod(a, g, m), pxor(gy, gz), m)),
            mulmod(a, mulmod(gy, gz, m), m))
            == mulmod(a, pxor(pxor(mulmod(g, g, m), mulmod(g, pxor(gy, gz), m)), mulmod(gy, gz, m)), m),
{
    lemma_mulmod_assoc(a, g, pxor(gy, gz), m);
    lemma_distrib3_right(a, mulmod(g, g, m), mulmod(g, pxor(gy, gz), m), mulmod(gy, gz, m), m);
}

/// Three lost words come back from all three parities, given distinct
/// non-zero weights.
pub proof fn lemma_solve_pqr(ax: nat, ay: nat, az: nat, gx: nat, gy: nat, gz: nat, m: nat, w: nat)
    requires
        modulus_ok(m, w),
        field_inverts(m, w),
        ax < exp2(w),
        ay < exp2(w),
        az < exp2(w),
        0 < gx < exp2(w),
        0 < gy < exp2(w),
        0 < gz < exp2(w),
        gx != gy,
        gx != gz,
        gy != gz,
    ensures
        solve_pqr(
            pxor(pxor(ax, ay), az),
            pxor(pxor(mulmod(ax, gx, m), mulmod(ay, gy, m)), mulmod(az, gz, m)),
            pxor(pxor(mulmod(ax, mulmod(gx, gx, m), m), mulmod(ay, mulmod(gy, gy, m), m)), mulmod(az, mulmod(gz, gz, m), m)),
            gx,
            gy,
            gz,
            m,
            w,
        ) == (ax, ay, az),
{
    lemma_exp2_pos(w);
    let dp = pxor(pxor(ax, ay), az);
    let dq = pxor(pxor(mulmod(ax, gx, m), mulmod(ay, gy, m)), mulmod(az, gz, m));
    let dr = pxor(pxor(mulmod(ax, mulmod(gx, gx, m), m), mulmod(ay, mulmod(gy, gy, m), m)), mulmod(az, mulmod(gz, gz, m), m));
    let s = pxor(gy, gz);
    let u = mulmod(gy, gz, m);
    // dq * s, term by term
    lemma_distrib3(mulmod(ax, gx, m), mulmod(ay, gy, m), mulmod(az, gz, m), s, m);
    // (dp gy) gz == dp (gy gz), term by term
    lemma_mulmod_assoc(dp, gy, gz, m);
    lemma_distrib3(ax, ay, az, u, m);
    // regroup the numerator by word
    lemma_regroup3(
        mulmod(ax, mulmod(gx, gx, m), m), mulmod(ay, mulmod(gy, gy, m), m), mulmod(az, mulmod(gz, gz, m), m),
        mulmod(mulmod(ax, gx, m), s, m), mulmod(mulmod(ay, gy, m), s, m), mulmod(mulmod(az, gz, m), s, m),
        mulmod(ax, u, m), mulmod(ay, u, m), mulmod(az, u, m),
    );
    lemma_pqr_term(ax, gx, gy, gz, m);
    lemma_pqr_term(ay, gy, gy, gz, m);
    lemma_pqr_term(az, gz, gy, gz, m);
    // the weights of y and z vanish
    let a_ = mulmod(gy, gy, m);
    let b_ = mulmod(gy, gz, m);
    lemma_mulmod_distrib(gy, gy, gz, m);
    lemma_pxor_cancel(b_, a_);
    lemma_pxor_self(b_);
    let c_ = mulmod(gz, gz, m);
    lemma_mulmod_distrib(gz, gy, gz, m);
    lemma_mulmod_comm(gz, gy, m);
    lemma_pxor_comm(b_, c_);
    lemma_pxor_cancel(b_, c_);
    lemma_mul_zero(ay, m, w);
    lemma_mul_zero(az, m, w);
    // the weight of x is (gx + gy)(gx + gz)
    let sxy = pxor(gx, gy);
    let sxz = pxor(gx, gz);
    let e1 = mulmod(gx, gx, m);
    let e2 = mulmod(gx, gy, m);
    let e3 = mulmod(gx, gz, m);
    lemma_mulmod_distrib(gx, gy, gz, m);
    lemma_distrib_left(gx, gy, sxz, m);
    lemma_mulmod_distrib(gx, gx, gz, m);
    lemma_mulmod_distrib(gy, gx, gz, m);
    lemma_mulmod_comm(gy, gx, m);
    lemma_pxor_assoc(e1, e2, e3);
    lemma_pxor_assoc(pxor(e1, e2), e3, u);
    lemma_pxor_swap(e1, e2, e3, u);
    let den = mulmod(sxy, sxz, m);
    lemma_pxor_zero(mulmod(ax, pxor(pxor(e1, pxor(e2, e3)), u), m));
    lemma_pxor_zero(0);
    lemma_sum_nonzero(gx, gy, w);
    lemma_sum_nonzero(gx, gz, w);
    lemma_sum_nonzero(gy, gz, w);
    lemma_reduced(sxy, sxz, m, w);
    lemma_no_zero_divisors(sxy, sxz, m, w);
    lemma_div_mul(ax, den, m, w);
    assert(pxor(pxor(dr, mulmod(dq, s, m)), mulmod(mulmod(dp, gy, m), gz, m)) == mulmod(ax, den, m));
    // dy: dq + dp gz + ax (gx + gz) == ay (gy + gz)
    lemma_distrib3(ax, ay, az, gz, m);
    lemma_regroup2(
        mulmod(ax, gx, m), mulmod(ay, gy, m), mulmod(az, gz, m),
        mulmod(ax, gz, m), mulmod(ay, gz, m), mulmod(az, gz, m),
    );
    lemma_mulmod_distrib(ax, gx, gz, m);
    lemma_mulmod_distrib(ay, gy, gz, m);
    lemma_pxor_self(mulmod(az, gz, m));
    lemma_pxor_zero(pxor(mulmod(ax, sxz, m), mulmod(ay, s, m)));
    lemma_pxor_comm(mulmod(ax, sxz, m), mulmod(ay, s, m));
    lemma_pxor_cancel(mulmod(ay, s, m), mulmod(ax, sxz, m));
    lemma_div_mul(ay, s, m, w);
    assert(pxor(pxor(dq, mulmod(dp, gz, m)), mulmod(ax, sxz, m)) == mulmod(ay, s, m));
    // dz: dp + ax + ay == az
    lemma_pxor_assoc(ax, ay, az);
    lemma_pxor_cancel(pxor(ay, az), ax);
    lemma_pxor_comm(pxor(ax, pxor(ay, az)), ax);
    lemma_pxor_cancel(az, ay);
    lemma_pxor_comm(ay, az);
}

/// Every weight is reduced; weight `0` is one and weight `2` is the square
/// of weight `1`.
pub proof fn lemma_coef_facts(g: nat, j: nat, m: nat, w: nat)
    requires
        modulus_ok(m, w),
    ensures
        coef(g, 0, j, m) == 1,
        coef(g, 1, j, m) < exp2(w),
        coef(g, 2, j, m) < exp2(w),
        coef(g, 1, j, m) == powmod(g, j, m),
        coef(g, 2, j, m) == mulmod(coef(g, 1, j, m), coef(g, 1, j, m), m),
{
    lemma_exp2_pos(w);
    let y = powmod(g, j, m);
    crate::field::lemma_pmod_one(m, w);
    crate::poly::lemma_powmod_reduced(g, j, m);
    crate::poly::lemma_bitlen_bound(y);
    crate::poly::lemma_exp2_mono(bitlen(y), w);
    lemma_mul_one(y, m, w);
    assert(powmod(y, 1, m) == mulmod(y, powmod(y, 0, m), m));
    assert(powmod(y, 2, m) == mulmod(y, powmod(y, 1, m), m));
    lemma_reduced(y, y, m, w);
}

/// What the words at the listed positions contribute to parity `k`.
pub open spec fn share_of(c: Seq<nat>, d: Seq<usize>, g: nat, k: nat, m: nat) -> nat
    decreases d.len(),
{
    if d.len() == 0 {
        0
    } else {
        pxor(share_of(c, d.drop_last(), g, k, m), mulmod(c[d.last() as int], coef(g, k, d.last() as nat, m), m))
    }
}

/// A parity is the parity with the listed words zeroed plus what the listed
/// words contribute.
pub proof fn lemma_parity_split(c: Seq<nat>, d: Seq<usize>, g: nat, k: nat, m: nat)
    requires
        m > 0,
        c.len() <= usize::MAX,
        forall|x: int, y: int| 0 <= x < y < d.len() ==> d[x] < d[y],
        forall|x: int| 0 <= x < d.len() ==> (#[trigger] d[x]) < c.len(),
    ensures
        parity(c, g, k, m) == pxor(parity(zeroed(c, d), g, k, m), share_of(c, d, g, k, m)),
    decreases d.len(),
{
    if d.len() == 0 {
        assert(zeroed(c, d) =~= c);
        lemma_pxor_zero(parity(c, g, k, m));
    } else {
        let d0 = d.drop_last();
        let x = d.last();
        lemma_parity_split(c, d0, g, k, m);
        let z0 = zeroed(c, d0);
        assert(!d0.contains(x)) by {
            if d0.contains(x) {
                let i = choose|i: int| 0 <= i < d0.len() && d0[i] == x;
                assert(d[i] < d[d.len() - 1]);
            }
        }
        assert(zeroed(c, d) =~= z0.update(x as int, 0)) by {
            assert forall|j: int| 0 <= j < c.len() implies zeroed(c, d)[j] == z0.update(x as int, 0)[j] by {
                if j == x as int {
                } else {
                    assert(d.contains(j as usize) == d0.contains(j as usize)) by {
                        if d.contains(j as usize) {
                            let i = choose|i: int| 0 <= i < d.len() && d[i] == j as usize;
                            assert(i != d.len() - 1);
                            assert(d0[i] == j as usize);
                        }
                        if d0.contains(j as usize) {
                            let i = choose|i: int| 0 <= i < d0.len() && d0[i] == j as usize;
                            assert(d[i] == j as usize);
                        }
                    }
                }
            }
        }
        lemma_parity_update(z0, x as int, 0, g, k, m);
        lemma_pxor_zero(c[x as int]);
        let t = mulmod(c[x as int], coef(g, k, x as nat, m), m);
        let pz = parity(zeroed(c, d), g, k, m);
        let p0 = parity(z0, g, k, m);
        // p0 == pz + t
        lemma_pxor_cancel(p0, t);
        lemma_pxor_assoc(pz, t, share_of(c, d0, g, k, m));
        lemma_pxor_comm(t, share_of(c, d0, g, k, m));
    }
}

/// For a parity block that is not listed as bad, what the rebuilt blocks
/// contributed to it is what the completion's words at those blocks
/// contribute.
pub proof fn lemma_delta_share<W: Word>(
    a: Seq<nat>,
    b0: Seq<Vec<W>>,
    p0: Seq<Vec<W>>,
    bad: Seq<usize>,
    d: Seq<usize>,
    k: int,
    i: int,
    g: nat,
    m: nat,
    w: nat,
)
    requires
        modulus_ok(m, w),
        b0.len() <= usize::MAX,
        lists_bad_data(d, bad, b0.len()),
        completes(a, b0, views(p0), bad, i, g, m, w),
        0 <= k < p0.len(),
        !bad_has(bad, b0.len() + k),
    ensures
        delta_of(b0, p0[k]@, k as nat, d, i, g, m) == share_of(a.subrange(0, b0.len() as int), d, g, k as nat, m),
{
    lemma_exp2_pos(w);
    let n = b0.len();
    let ca = a.subrange(0, n as int);
    let co = column(b0, i);
    assert(zeroed(co, d) =~= zeroed(ca, d)) by {
        assert forall|j: int| 0 <= j < n implies zeroed(co, d)[j] == zeroed(ca, d)[j] by {
            if !d.contains(j as usize) {
                assert(!bad_has(bad, j));
                assert(a[j] == b0[j]@[i].nat_of());
            }
        }
    }
    lemma_parity_split(ca, d, g, k as nat, m);
    assert(views(p0)[k] == p0[k]@);
    assert(a[n + k] == views(p0)[k][i].nat_of());
    assert(a[n + k] == parity(ca, g, k as nat, m));
    let pz = parity(zeroed(ca, d), g, k as nat, m);
    let sh = share_of(ca, d, g, k as nat, m);
    lemma_pxor_comm(pz, sh);
    lemma_pxor_cancel(sh, pz);
}

/// The weight of a data block in a parity block, for blocks that exist.
proof fn lemma_weight_nonzero(g: nat, k: nat, x: nat, m: nat, w: nat, n: nat, kk: nat)
    requires
        modulus_ok(m, w),
        raid_field_facts(g, m, w, n, kk),
        x < n,
        k < kk,
        k <= 2,
    ensures
        0 < coef(g, k, x, m) < exp2(w),
{
    lemma_coef_facts(g, x, m, w);
    lemma_exp2_pos(w);
    crate::field::lemma_pmod_one(m, w);
    if k >= 1 {
        assert(coef(g, 1, x, m) != 0);
    }
    if k == 2 {
        lemma_no_zero_divisors(coef(g, 1, x, m), coef(g, 1, x, m), m, w);
    }
}

/// The contributions of one, two or three listed words.
proof fn lemma_share_small(c: Seq<nat>, d: Seq<usize>, g: nat, k: nat, m: nat)
    ensures
        d.len() == 1 ==> share_of(c, d, g, k, m) == mulmod(c[d[0] as int], coef(g, k, d[0] as nat, m), m),
        d.len() == 2 ==> share_of(c, d, g, k, m) == pxor(
            mulmod(c[d[0] as int], coef(g, k, d[0] as nat, m), m),
            mulmod(c[d[1] as int], coef(g, k, d[1] as nat, m), m),
        ),
        d.len() == 3 ==> share_of(c, d, g, k, m) == pxor(pxor(
            mulmod(c[d[0] as int], coef(g, k, d[0] as nat, m), m),
            mulmod(c[d[1] as int], coef(g, k, d[1] as nat, m), m)),
            mulmod(c[d[2] as int], coef(g, k, d[2] as nat, m), m),
        ),
{
    reveal_with_fuel(share_of, 4);
    if d.len() >= 1 && d.len() <= 3 {
        let d1 = d.subrange(0, 1);
        assert(d1.drop_last() =~= Seq::<usize>::empty());
        lemma_pxor_zero(mulmod(c[d[0] as int], coef(g, k, d[0] as nat, m), m));
        assert(share_of(c, d1, g, k, m) == mulmod(c[d[0] as int], coef(g, k, d[0] as nat, m), m));
        if d.len() == 1 {
            assert(d =~= d1);
        } else {
            let d2 = d.subrange(0, 2);
            assert(d2.drop_last() =~= d1);
            if d.len() == 2 {
                assert(d =~= d2);
            } else {
                assert(d.drop_last() =~= d2);
            }
        }
    }
}

/// Rebuilding one block from one good parity restores it.
pub proof fn lemma_restore_one<W: Word>(
    b0: Seq<Vec<W>>,
    p0: Seq<Vec<W>>,
    bad: Seq<usize>,
    d: Seq<usize>,
    k: int,
    v: Vec<W>,
    len: nat,
    g: nat,
    m: nat,
    w: nat,
)
    requires
        modulus_ok(m, w),
        b0.len() <= usize::MAX,
        raid_field_facts(g, m, w, b0.len(), p0.len()),
        lists_bad_data(d, bad, b0.len()),
        d.len() == 1,
        0 <= k < p0.len(),
        k <= 2,
        !bad_has(bad, b0.len() + k),
        v@.len() == len,
        forall|i: int| 0 <= i < len ==> (#[trigger] v@[i]).nat_of() == solve_one(
            delta_of(b0, p0[k]@, k as nat, d, i, g, m), coef(g, k as nat, d[0] as nat, m), m, w),
    ensures
        data_restored(b0.update(d[0] as int, v), b0, views(p0), bad, len, g, m, w),
{
    let n = b0.len();
    let x = d[0];
    let nb = b0.update(x as int, v);
    assert forall|i: int, a: Seq<nat>| 0 <= i < len && #[trigger] completes(a, b0, views(p0), bad, i, g, m, w)
        implies forall|j: int| 0 <= j < n ==> (#[trigger] nb[j])@[i].nat_of() == a[j] by {
        lemma_delta_share(a, b0, p0, bad, d, k, i, g, m, w);
        let ca = a.subrange(0, n as int);
        lemma_share_small(ca, d, g, k as nat, m);
        lemma_weight_nonzero(g, k as nat, x as nat, m, w, n, p0.len());
        assert(a[x as int] < exp2(w));
        lemma_solve_one(a[x as int], coef(g, k as nat, x as nat, m), m, w);
        assert forall|j: int| 0 <= j < n implies (#[trigger] nb[j])@[i].nat_of() == a[j] by {
            if j != x as int {
                assert(!d.contains(j as usize)) by {
                    if d.contains(j as usize) {
                        let t = choose|t: int| 0 <= t < d.len() && d[t] == j as usize;
                    }
                }
                assert(!bad_has(bad, j));
                assert(a[j] == b0[j]@[i].nat_of());
            }
        }
    }
}

/// Blocks that are not listed keep the completion's words.
proof fn lemma_unlisted<W: Word>(
    a: Seq<nat>,
    b0: Seq<Vec<W>>,
    p0: Seq<Vec<W>>,
    bad: Seq<usize>,
    d: Seq<usize>,
    i: int,
    j: int,
    g: nat,
    m: nat,
    w: nat,
)
    requires
        b0.len() <= usize::MAX,
        lists_bad_data(d, bad, b0.len()),
        completes(a, b0, views(p0), bad, i, g, m, w),
        0 <= j < b0.len(),
        forall|t: int| 0 <= t < d.len() ==> d[t] as int != j,
    ensures
        b0[j]@[i].nat_of() == a[j],
{
    assert(!d.contains(j as usize)) by {
        if d.contains(j as usize) {
            let t = choose|t: int| 0 <= t < d.len() && d[t] == j as usize;
        }
    }
    assert(!bad_has(bad, j));
}

/// With no data block listed, the data words are already the completion's.
pub proof fn lemma_restore_none<W: Word>(
    b0: Seq<Vec<W>>,
    p0: Seq<Vec<W>>,
    bad: Seq<usize>,
    d: Seq<usize>,
    len: nat,
    g: nat,
    m: nat,
    w: nat,
)
    requires
        b0.len() <= usize::MAX,
        lists_bad_data(d, bad, b0.len()),
        d.len() == 0,
    ensures
        data_restored(b0, b0, views(p0), bad, len, g, m, w),
{
    assert forall|i: int, a: Seq<nat>| 0 <= i < len && #[trigger] completes(a, b0, views(p0), bad, i, g, m, w)
        implies forall|j: int| 0 <= j < b0.len() ==> (#[trigger] b0[j])@[i].nat_of() == a[j] by {
        assert forall|j: int| 0 <= j < b0.len() implies (#[trigger] b0[j])@[i].nat_of() == a[j] by {
            lemma_unlisted(a, b0, p0, bad, d, i, j, g, m, w);
        }
    }
}

/// What the listed blocks contributed to a good parity, word by word.
proof fn lemma_delta_words<W: Word>(
    a: Seq<nat>,
    b0: Seq<Vec<W>>,
    p0: Seq<Vec<W>>,
    bad: Seq<usize>,
    d: Seq<usize>,
    k: int,
    i: int,
    g: nat,
    m: nat,
    w: nat,
)
    requires
        modulus_ok(m, w),
        b0.len() <= usize::MAX,
        raid_field_facts(g, m, w, b0.len(), p0.len()),
        lists_bad_data(d, bad, b0.len()),
        completes(a, b0, views(p0), bad, i, g, m, w),
        0 <= k < p0.len(),
        !bad_has(bad, b0.len() + k),
        2 <= d.len() <= 3,
    ensures
        d.len() == 2 ==> delta_of(b0, p0[k]@, k as nat, d, i, g, m) == pxor(
            mulmod(a[d[0] as int], coef(g, k as nat, d[0] as nat, m), m),
            mulmod(a[d[1] as int], coef(g, k as nat, d[1] as nat, m), m),
        ),
        d.len() == 3 ==> delta_of(b0, p0[k]@, k as nat, d, i, g, m) == pxor(pxor(
            mulmod(a[d[0] as int], coef(g, k as nat, d[0] as nat, m), m),
            mulmod(a[d[1] as int], coef(g, k as nat, d[1] as nat, m), m)),
            mulmod(a[d[2] as int], coef(g, k as nat, d[2] as nat, m), m),
        ),
        forall|t: int| 0 <= t < d.len() ==> a[#[trigger] d[t] as int] < exp2(w),
{
    let n = b0.len();
    let ca = a.subrange(0, n as int);
    lemma_delta_share(a, b0, p0, bad, d, k, i, g, m, w);
    lemma_share_small(ca, d, g, k as nat, m);
    assert forall|t: int| 0 <= t < d.len() implies a[#[trigger] d[t] as int] < exp2(w) && ca[d[t] as int] == a[d[t] as int] by {
        assert(d[t] < n);
    }
}

/// One column of the rebuilding from the plain parity and weighted parity `kb`.
#[verifier::rlimit(40)]
proof fn lemma_column_two_p<W: Word>(
    a: Seq<nat>,
    b0: Seq<Vec<W>>,
    p0: Seq<Vec<W>>,
    bad: Seq<usize>,
    d: Seq<usize>,
    kb: int,
    i: int,
    wx: nat,
    wy: nat,
    g: nat,
    m: nat,
    w: nat,
)
    requires
        modulus_ok(m, w),
        b0.len() <= usize::MAX,
        raid_field_facts(g, m, w, b0.len(), p0.len()),
        lists_bad_data(d, bad, b0.len()),
        completes(a, b0, views(p0), bad, i, g, m, w),
        d.len() == 2,
        1 <= kb < p0.len(),
        kb <= 2,
        !bad_has(bad, b0.len() + 0int),
        !bad_has(bad, b0.len() + kb),
        (wx, wy) == solve_p_and(
            delta_of(b0, p0[0]@, 0, d, i, g, m),
            delta_of(b0, p0[kb]@, kb as nat, d, i, g, m),
            coef(g, kb as nat, d[0] as nat, m),
            coef(g, kb as nat, d[1] as nat, m),
            m,
            w,
        ),
    ensures
        wx == a[d[0] as int],
        wy == a[d[1] as int],
{
    let x = d[0];
    let y = d[1];
    lemma_delta_words(a, b0, p0, bad, d, 0, i, g, m, w);
    lemma_delta_words(a, b0, p0, bad, d, kb, i, g, m, w);
    assert(a[d[0] as int] < exp2(w));
    assert(a[d[1] as int] < exp2(w));
    lemma_coef_facts(g, x as nat, m, w);
    lemma_coef_facts(g, y as nat, m, w);
    lemma_mul_one(a[x as int], m, w);
    lemma_mul_one(a[y as int], m, w);
    assert(x != y);
    lemma_solve_p_and(a[x as int], a[y as int], coef(g, kb as nat, x as nat, m), coef(g, kb as nat, y as nat, m), m, w);
}

/// Rebuilding two blocks from the plain parity and weighted parity `kb`
/// restores them.
pub proof fn lemma_restore_two_p<W: Word>(
    b0: Seq<Vec<W>>,
    p0: Seq<Vec<W>>,
    bad: Seq<usize>,
    d: Seq<usize>,
    kb: int,
    vx: Vec<W>,
    vy: Vec<W>,
    len: nat,
    g: nat,
    m: nat,
    w: nat,
)
    requires
        modulus_ok(m, w),
        b0.len() <= usize::MAX,
        raid_field_facts(g, m, w, b0.len(), p0.len()),
        lists_bad_data(d, bad, b0.len()),
        d.len() == 2,
        1 <= kb < p0.len(),
        kb <= 2,
        !bad_has(bad, b0.len() + 0int),
        !bad_has(bad, b0.len() + kb),
        vx@.len() == len,
        vy@.len() == len,
        forall|i: int| 0 <= i < len ==> ((#[trigger] vx@[i]).nat_of(), vy@[i].nat_of()) == solve_p_and(
            delta_of(b0, p0[0]@, 0, d, i, g, m),
            delta_of(b0, p0[kb]@, kb as nat, d, i, g, m),
            coef(g, kb as nat, d[0] as nat, m),
            coef(g, kb as nat, d[1] as nat, m),
            m,
            w,
        ),
    ensures
        data_restored(b0.update(d[0] as int, vx).update(d[1] as int, vy), b0, views(p0), bad, len, g, m, w),
{
    let n = b0.len();
    let x = d[0];
    let y = d[1];
    let nb = b0.update(x as int, vx).update(y as int, vy);
    assert forall|i: int, a: Seq<nat>| 0 <= i < len && #[trigger] completes(a, b0, views(p0), bad, i, g, m, w)
        implies forall|j: int| 0 <= j < n ==> (#[trigger] nb[j])@[i].nat_of() == a[j] by {
        assert(vx@[i].nat_of() == vx@[i].nat_of());
        lemma_column_two_p(a, b0, p0, bad, d, kb, i, vx@[i].nat_of(), vy@[i].nat_of(), g, m, w);
        assert forall|j: int| 0 <= j < n implies (#[trigger] nb[j])@[i].nat_of() == a[j] by {
            if j != x as int && j != y as int {
                lemma_unlisted(a, b0, p0, bad, d, i, j, g, m, w);
            }
        }
    }
}

/// One column of the rebuilding from the two weighted parities.
proof fn lemma_column_two_qr<W: Word>(
    a: Seq<nat>,
    b0: Seq<Vec<W>>,
    p0: Seq<Vec<W>>,
    bad: Seq<usize>,
    d: Seq<usize>,
    i: int,
    wx: nat,
    wy: nat,
    g: nat,
    m: nat,
    w: nat,
)
    requires
        modulus_ok(m, w),
        b0.len() <= usize::MAX,
        raid_field_facts(g, m, w, b0.len(), p0.len()),
        lists_bad_data(d, bad, b0.len()),
        completes(a, b0, views(p0), bad, i, g, m, w),
        d.len() == 2,
        p0.len() == 3,
        !bad_has(bad, b0.len() + 1int),
        !bad_has(bad, b0.len() + 2int),
        (wx, wy) == solve_q_r(
            delta_of(b0, p0[1]@, 1, d, i, g, m),
            delta_of(b0, p0[2]@, 2, d, i, g, m),
            coef(g, 1, d[0] as nat, m),
            coef(g, 1, d[1] as nat, m),
            m,
            w,
        ),
    ensures
        wx == a[d[0] as int],
        wy == a[d[1] as int],
{
    let n = b0.len();
    let x = d[0];
    let y = d[1];
    let ca = a.subrange(0, n as int);
    lemma_delta_share(a, b0, p0, bad, d, 1, i, g, m, w);
    lemma_delta_share(a, b0, p0, bad, d, 2, i, g, m, w);
    lemma_share_small(ca, d, g, 1, m);
    lemma_share_small(ca, d, g, 2, m);
    lemma_coef_facts(g, x as nat, m, w);
    lemma_coef_facts(g, y as nat, m, w);
    lemma_weight_nonzero(g, 1, x as nat, m, w, n, p0.len());
    lemma_weight_nonzero(g, 1, y as nat, m, w, n, p0.len());
    assert(ca[x as int] == a[x as int]);
    assert(ca[y as int] == a[y as int]);
    assert(a[x as int] < exp2(w));
    assert(a[y as int] < exp2(w));
    assert(x != y);
    assert(coef(g, 1, x as nat, m) != coef(g, 1, y as nat, m));
    lemma_solve_q_r(a[x as int], a[y as int], coef(g, 1, x as nat, m), coef(g, 1, y as nat, m), m, w);
}

/// Rebuilding two blocks from the two weighted parities restores them.
pub proof fn lemma_restore_two_qr<W: Word>(
    b0: Seq<Vec<W>>,
    p0: Seq<Vec<W>>,
    bad: Seq<usize>,
    d: Seq<usize>,
    vx: Vec<W>,
    vy: Vec<W>,
    len: nat,
    g: nat,
    m: nat,
    w: nat,
)
    requires
        modulus_ok(m, w),
        b0.len() <= usize::MAX,
        raid_field_facts(g, m, w, b0.len(), p0.len()),
        lists_bad_data(d, bad, b0.len()),
        d.len() == 2,
        p0.len() == 3,
        !bad_has(bad, b0.len() + 1int),
        !bad_has(bad, b0.len() + 2int),
        vx@.len() == len,
        vy@.len() == len,
        forall|i: int| 0 <= i < len ==> ((#[trigger] vx@[i]).nat_of(), vy@[i].nat_of()) == solve_q_r(
            delta_of(b0, p0[1]@, 1, d, i, g, m),
            delta_of(b0, p0[2]@, 2, d, i, g, m),
            coef(g, 1, d[0] as nat, m),
            coef(g, 1, d[1] as nat, m),
            m,
            w,
        ),
    ensures
        data_restored(b0.update(d[0] as int, vx).update(d[1] as int, vy), b0, views(p0), bad, len, g, m, w),
{
    let n = b0.len();
    let x = d[0];
    let y = d[1];
    let nb = b0.update(x as int, vx).update(y as int, vy);
    assert forall|i: int, a: Seq<nat>| 0 <= i < len && #[trigger] completes(a, b0, views(p0), bad, i, g, m, w)
        implies forall|j: int| 0 <= j < n ==> (#[trigger] nb[j])@[i].nat_of() == a[j] by {
        assert(vx@[i].nat_of() == vx@[i].nat_of());
        lemma_column_two_qr(a, b0, p0, bad, d, i, vx@[i].nat_of(), vy@[i].nat_of(), g, m, w);
        assert forall|j: int| 0 <= j < n implies (#[trigger] nb[j])@[i].nat_of() == a[j] by {
            if j != x as int && j != y as int {
                lemma_unlisted(a, b0, p0, bad, d, i, j, g, m, w);
            }
        }
    }
}

/// One column of the rebuilding from all three parities.
#[verifier::rlimit(40)]
proof fn lemma_column_three<W: Word>(
    a: Seq<nat>,
    b0: Seq<Vec<W>>,
    p0: Seq<Vec<W>>,
    bad: Seq<usize>,
    d: Seq<usize>,
    i: int,
    wx: nat,
    wy: nat,
    wz: nat,
    g: nat,
    m: nat,
    w: nat,
)
    requires
        modulus_ok(m, w),
        b0.len() <= usize::MAX,
        raid_field_facts(g, m, w, b0.len(), p0.len()),
        lists_bad_data(d, bad, b0.len()),
        completes(a, b0, views(p0), bad, i, g, m, w),
        d.len() == 3,
        p0.len() == 3,
        !bad_has(bad, b0.len() + 0int),
        !bad_has(bad, b0.len() + 1int),
        !bad_has(bad, b0.len() + 2int),
        (wx, wy, wz) == solve_pqr(
            delta_of(b0, p0[0]@, 0, d, i, g, m),
            delta_of(b0, p0[1]@, 1, d, i, g, m),
            delta_of(b0, p0[2]@, 2, d, i, g, m),
            coef(g, 1, d[0] as nat, m),
            coef(g, 1, d[1] as nat, m),
            coef(g, 1, d[2] as nat, m),
            m,
            w,
        ),
    ensures
        wx == a[d[0] as int],
        wy == a[d[1] as int],
        wz == a[d[2] as int],
{
    let n = b0.len();
    let x = d[0];
    let y = d[1];
    let z = d[2];
    lemma_delta_words(a, b0, p0, bad, d, 0, i, g, m, w);
    lemma_delta_words(a, b0, p0, bad, d, 1, i, g, m, w);
    lemma_delta_words(a, b0, p0, bad, d, 2, i, g, m, w);
    assert(a[d[0] as int] < exp2(w));
    assert(a[d[1] as int] < exp2(w));
    assert(a[d[2] as int] < exp2(w));
    lemma_coef_facts(g, x as nat, m, w);
    lemma_coef_facts(g, y as nat, m, w);
    lemma_coef_facts(g, z as nat, m, w);
    lemma_weight_nonzero(g, 1, x as nat, m, w, n, p0.len());
    lemma_weight_nonzero(g, 1, y as nat, m, w, n, p0.len());
    lemma_weight_nonzero(g, 1, z as nat, m, w, n, p0.len());
    lemma_mul_one(a[x as int], m, w);
    lemma_mul_one(a[y as int], m, w);
    lemma_mul_one(a[z as int], m, w);
    assert(x != y && x != z && y != z);
    assert(coef(g, 1, x as nat, m) != coef(g, 1, y as nat, m));
    assert(coef(g, 1, x as nat, m) != coef(g, 1, z as nat, m));
    assert(coef(g, 1, y as nat, m) != coef(g, 1, z as nat, m));
    lemma_solve_pqr(
        a[x as int], a[y as int], a[z as int],
        coef(g, 1, x as nat, m), coef(g, 1, y as nat, m), coef(g, 1, z as nat, m), m, w);
}

/// Rebuilding three blocks from all three parities restores them.
pub proof fn lemma_restore_three<W: Word>(
    b0: Seq<Vec<W>>,
    p0: Seq<Vec<W>>,
    bad: Seq<usize>,
    d: Seq<usize>,
    vx: Vec<W>,
    vy: Vec<W>,
    vz: Vec<W>,
    len: nat,
    g: nat,
    m: nat,
    w: nat,
)
    requires
        modulus_ok(m, w),
        b0.len() <= usize::MAX,
        raid_field_facts(g, m, w, b0.len(), p0.len()),
        lists_bad_data(d, bad, b0.len()),
        d.len() == 3,
        p0.len() == 3,
        !bad_has(bad, b0.len() + 0int),
        !bad_has(bad, b0.len() + 1int),
        !bad_has(bad, b0.len() + 2int),
        vx@.len() == len,
        vy@.len() == len,
        vz@.len() == len,
        forall|i: int| 0 <= i < len ==> ((#[trigger] vx@[i]).nat_of(), vy@[i].nat_of(), vz@[i].nat_of()) == solve_pqr(
            delta_of(b0, p0[0]@, 0, d, i, g, m),
            delta_of(b0, p0[1]@, 1, d, i, g, m),
            delta_of(b0, p0[2]@, 2, d, i, g, m),
            coef(g, 1, d[0] as nat, m),
            coef(g, 1, d[1] as nat, m),
            coef(g, 1, d[2] as nat, m),
            m,
            w,
        ),
    ensures
        data_restored(
            b0.update(d[0] as int, vx).update(d[1] as int, vy).update(d[2] as int, vz), b0, views(p0), bad, len, g, m, w),
{
    let n = b0.len();
    let x = d[0];
    let y = d[1];
    let z = d[2];
    let nb = b0.update(x as int, vx).update(y as int, vy).update(z as int, vz);
    assert forall|i: int, a: Seq<nat>| 0 <= i < len && #[trigger] completes(a, b0, views(p0), bad, i, g, m, w)
        implies forall|j: int| 0 <= j < n ==> (#[trigger] nb[j])@[i].nat_of() == a[j] by {
        assert(vx@[i].nat_of() == vx@[i].nat_of());
        lemma_column_three(a, b0, p0, bad, d, i, vx@[i].nat_of(), vy@[i].nat_of(), vz@[i].nat_of(), g, m, w);
        assert forall|j: int| 0 <= j < n implies (#[trigger] nb[j])@[i].nat_of() == a[j] by {
            if j != x as int && j != y as int && j != z as int {
                lemma_unlisted(a, b0, p0, bad, d, i, j, g, m, w);
            }
        }
    }
}

} // verus!
