//! Shamir's secret sharing: a secret is split into `n` shares so that any
//! `k` of them give it back, and fewer give nothing away.
//!
//! Each word of the secret becomes the constant term of a polynomial of
//! degree `k - 1` whose other coefficients are drawn at random (non-zero);
//! share `i` holds `x = i + 1` followed by the polynomial's value at `x` for
//! each word. Reconstruction evaluates, at zero, the polynomial through the
//! points that the shares give (Lagrange interpolation). The modules below
//! fix the field and the word type.

use vstd::prelude::*;
use rand::Rng;
use crate::poly::{exp2, pxor, mulmod, lemma_exp2_pos, lemma_exp2_mono};
use crate::bits::lemma_exp2_values;
use crate::raid::{FieldParams, Word, fdiv, fmul, fadd, fdivide, block_ok};
use crate::raid::algebra::{field_inverts, modulus_ok};
use crate::shamir::algebra::lemma_interpolate_poly;

pub mod algebra;
pub mod shamir;
pub mod shamir_all_params;
pub mod gf16_shamir;
pub mod gf2p23_shamir;
pub mod gf2p64_shamir;

verus! {

/// Draws a number from `low..=high` with the thread-local generator of the
/// `rand` crate, `rand::thread_rng().gen_range(low..=high)`. That call
/// returns a value in the range and panics only on an empty range; which
/// value it returns is left open.
#[verifier::external_body]
fn random_in_range(low: u128, high: u128) -> (r: u128)
    requires
        low <= high,
    ensures
        low <= r <= high,
{
    rand::thread_rng().gen_range(low..=high)
}

/// The value at `x` of the polynomial with coefficients `f`, constant term
/// first: `f[0] + x * (f[1] + x * (...))`.
pub open spec fn peval(f: Seq<nat>, x: nat, m: nat) -> nat
    decreases f.len(),
{
    if f.len() == 0 {
        0
    } else {
        pxor(mulmod(peval(f.subrange(1, f.len() as int), x, m), x, m), f[0])
    }
}

/// The product of `xs[t]` over the points `t < j` other than `i`.
pub open spec fn lagrange_num(xs: Seq<nat>, i: int, j: int, m: nat) -> nat
    decreases j,
{
    if j <= 0 {
        1
    } else if j - 1 == i {
        lagrange_num(xs, i, j - 1, m)
    } else {
        mulmod(lagrange_num(xs, i, j - 1, m), xs[j - 1], m)
    }
}

/// The product of `xs[i] + xs[t]` over the points `t < j` other than `i`.
pub open spec fn lagrange_den(xs: Seq<nat>, i: int, j: int, m: nat) -> nat
    decreases j,
{
    if j <= 0 {
        1
    } else if j - 1 == i {
        lagrange_den(xs, i, j - 1, m)
    } else {
        mulmod(lagrange_den(xs, i, j - 1, m), pxor(xs[i], xs[j - 1]), m)
    }
}

/// The value at zero of the polynomial through the points
/// `(xs[i], ys[i])`, summed over the first `j` points: each `ys[i]` weighted
/// by the product of `xs[t] / (xs[i] + xs[t])` over the other points.
pub open spec fn interpolate(xs: Seq<nat>, ys: Seq<nat>, j: int, m: nat, w: nat) -> nat
    decreases j,
{
    if j <= 0 {
        0
    } else {
        let i = j - 1;
        let l = fdiv(lagrange_num(xs, i, xs.len() as int, m), lagrange_den(xs, i, xs.len() as int, m), m, w);
        pxor(interpolate(xs, ys, j - 1, m, w), mulmod(l, ys[i], m))
    }
}

/// For each of `len` words, `count` coefficients drawn at random from the
/// non-zero field elements.
fn draw_coeffs<W: Word>(len: usize, count: usize, f: &FieldParams) -> (r: Vec<Vec<W>>)
    requires
        f.wf(),
        f.w() <= W::width_of(),
    ensures
        r@.len() == len,
        forall|b: int| 0 <= b < len ==> (#[trigger] r@[b])@.len() == count,
        forall|b: int, t: int| 0 <= b < len && 0 <= t < count
            ==> 0 < (#[trigger] r@[b]@[t]).nat_of() < exp2(f.w()),
{
    proof {
        lemma_exp2_values();
        lemma_exp2_mono(f.w(), 64);
        lemma_exp2_mono(f.w(), W::width_of());
        lemma_exp2_mono(1, f.w());
        assert(exp2(1) == 2 * exp2(0));
        crate::bits::lemma_shl(1, f.width);
    }
    let top: u128 = (1u128 << f.width) - 1;
    let mut r: Vec<Vec<W>> = Vec::new();
    let mut b: usize = 0;
    while b < len
        invariant
            f.wf(),
            f.w() <= W::width_of(),
            exp2(f.w()) <= exp2(W::width_of()),
            top as nat == exp2(f.w()) - 1,
            1 <= top,
            0 <= b <= len,
            r@.len() == b,
            forall|b2: int| 0 <= b2 < b ==> (#[trigger] r@[b2])@.len() == count,
            forall|b2: int, t: int| 0 <= b2 < b && 0 <= t < count
                ==> 0 < (#[trigger] r@[b2]@[t]).nat_of() < exp2(f.w()),
        decreases len - b,
    {
        let mut c: Vec<W> = Vec::new();
        let mut t: usize = 0;
        while t < count
            invariant
                exp2(f.w()) <= exp2(W::width_of()),
                top as nat == exp2(f.w()) - 1,
                1 <= top,
                0 <= t <= count,
                c@.len() == t,
                forall|t2: int| 0 <= t2 < t ==> 0 < (#[trigger] c@[t2]).nat_of() < exp2(f.w()),
            decreases count - t,
        {
            let v = random_in_range(1, top);
            c.push(W::of_u128(v));
            t = t + 1;
        }
        r.push(c);
        b = b + 1;
    }
    r
}

/// The value of the polynomial `c` (constant term first) at `x`, by
/// Horner's rule: how each share's value is computed from the drawn
/// coefficients.
pub fn eval_poly(c: &Vec<u128>, x: u128, f: &FieldParams) -> (y: u128)
    requires
        f.wf(),
        (x as nat) < exp2(f.w()),
        forall|t: int| 0 <= t < c@.len() ==> ((#[trigger] c@[t]) as nat) < exp2(f.w()),
    ensures
        y as nat == peval(c@.map_values(|v: u128| v as nat), x as nat, f.m()),
        (y as nat) < exp2(f.w()),
{
    let ghost cs = c@.map_values(|v: u128| v as nat);
    proof {
        lemma_exp2_pos(f.w());
        assert(cs.subrange(c@.len() as int, c@.len() as int) =~= Seq::<nat>::empty());
    }
    let mut y: u128 = 0;
    let mut i: usize = c.len();
    while i > 0
        invariant
            f.wf(),
            (x as nat) < exp2(f.w()),
            cs == c@.map_values(|v: u128| v as nat),
            forall|t: int| 0 <= t < c@.len() ==> ((#[trigger] c@[t]) as nat) < exp2(f.w()),
            0 <= i <= c@.len(),
            y as nat == peval(cs.subrange(i as int, c@.len() as int), x as nat, f.m()),
            (y as nat) < exp2(f.w()),
        decreases i,
    {
        i = i - 1;
        let t = fmul(y, x, f);
        y = fadd(t, c[i], f);
        proof {
            let s = cs.subrange(i as int, c@.len() as int);
            assert(s.subrange(1, s.len() as int) =~= cs.subrange(i + 1, c@.len() as int));
            assert(s[0] == c@[i as int] as nat);
        }
    }
    proof {
        assert(cs.subrange(0, c@.len() as int) =~= cs);
    }
    y
}

/// The value at zero of the polynomial through the points `(xs[i], ys[i])`.
fn interpolate_at_zero(xs: &Vec<u128>, ys: &Vec<u128>, f: &FieldParams) -> (y: u128)
    requires
        f.wf(),
        ys@.len() == xs@.len(),
        forall|t: int| 0 <= t < xs@.len() ==> ((#[trigger] xs@[t]) as nat) < exp2(f.w()),
        forall|t: int| 0 <= t < ys@.len() ==> ((#[trigger] ys@[t]) as nat) < exp2(f.w()),
    ensures
        y as nat == interpolate(
            xs@.map_values(|v: u128| v as nat),
            ys@.map_values(|v: u128| v as nat),
            xs@.len() as int,
            f.m(),
            f.w(),
        ),
        (y as nat) < exp2(f.w()),
{
    let ghost xn = xs@.map_values(|v: u128| v as nat);
    let ghost yn = ys@.map_values(|v: u128| v as nat);
    proof {
        lemma_exp2_pos(f.w());
        lemma_exp2_mono(1, f.w());
        assert(exp2(1) == 2 * exp2(0));
    }
    let n = xs.len();
    let mut y: u128 = 0;
    let mut i: usize = 0;
    while i < n
        invariant
            f.wf(),
            exp2(1) <= exp2(f.w()),
            n == xs@.len(),
            ys@.len() == n,
            xn == xs@.map_values(|v: u128| v as nat),
            yn == ys@.map_values(|v: u128| v as nat),
            forall|t: int| 0 <= t < n ==> ((#[trigger] xs@[t]) as nat) < exp2(f.w()),
            forall|t: int| 0 <= t < n ==> ((#[trigger] ys@[t]) as nat) < exp2(f.w()),
            0 <= i <= n,
            y as nat == interpolate(xn, yn, i as int, f.m(), f.w()),
            (y as nat) < exp2(f.w()),
        decreases n - i,
    {
        let mut num: u128 = 1;
        let mut den: u128 = 1;
        let mut j: usize = 0;
        while j < n
            invariant
                f.wf(),
                n == xs@.len(),
                xn == xs@.map_values(|v: u128| v as nat),
                forall|t: int| 0 <= t < n ==> ((#[trigger] xs@[t]) as nat) < exp2(f.w()),
                0 <= i < n,
                0 <= j <= n,
                num as nat == lagrange_num(xn, i as int, j as int, f.m()),
                den as nat == lagrange_den(xn, i as int, j as int, f.m()),
                (num as nat) < exp2(f.w()),
                (den as nat) < exp2(f.w()),
            decreases n - j,
        {
            if i != j {
                num = fmul(num, xs[j], f);
                let s = fadd(xs[i], xs[j], f);
                den = fmul(den, s, f);
            }
            j = j + 1;
        }
        let li = fdivide(num, den, f);
        let t = fmul(li, ys[i], f);
        y = fadd(y, t, f);
        i = i + 1;
    }
    y
}

/// The first coordinates of the shares.
pub open spec fn share_xs<W: Word>(shares: Seq<Vec<W>>) -> Seq<nat> {
    Seq::new(shares.len(), |j: int| shares[j]@[0].nat_of())
}

/// Word `b` of the secret as each share holds it.
pub open spec fn share_ys<W: Word>(shares: Seq<Vec<W>>, b: int) -> Seq<nat> {
    Seq::new(shares.len(), |j: int| shares[j]@[b + 1].nat_of())
}

/// `c` is a polynomial of degree `k - 1` with constant term `s` and
/// non-zero other coefficients, all field elements.
pub open spec fn sharing_poly(c: Seq<nat>, s: nat, k: nat, w: nat) -> bool {
    &&& c.len() == k
    &&& c[0] == s
    &&& forall|t: int| 0 < t < k ==> 0 < #[trigger] c[t] < exp2(w)
}

/// The number of shares that give the secret back when `k` is asked for:
/// `k`, and `1` for `k == 0`.
pub open spec fn threshold(k: usize) -> nat {
    if k == 0 { 1 } else { k as nat }
}

/// Word `b` of each of the first `n` shares is the value of `c` at the
/// share's `x = i + 1`.
pub open spec fn shares_follow<W: Word>(shares: Seq<Vec<W>>, b: int, c: Seq<nat>, n: nat, m: nat) -> bool {
    forall|i: int| 0 <= i < n ==> (#[trigger] shares[i])@[b + 1].nat_of() == peval(c, (i + 1) as nat, m)
}

/// Each word `b` of `secret` is shared by the polynomial `cs[b]`.
pub open spec fn shared_by<W: Word>(shares: Seq<Vec<W>>, secret: Seq<W>, cs: Seq<Seq<nat>>, n: nat, k: nat, m: nat, w: nat) -> bool {
    &&& cs.len() == secret.len()
    &&& forall|b: int| 0 <= b < secret.len() ==> sharing_poly(#[trigger] cs[b], secret[b].nat_of(), k, w)
    &&& forall|b: int| 0 <= b < secret.len() ==> shares_follow(shares, b, #[trigger] cs[b], n, m)
}

/// The polynomial, constant term first, that shares the word `s` with the
/// further coefficients `c`.
pub open spec fn share_poly<W: Word>(s: W, c: Seq<W>) -> Seq<nat> {
    seq![s.nat_of()] + crate::raid::words(c)
}

/// The coefficients of `share_poly(s, c)` as numbers of the computation.
fn poly_of<W: Word>(s: W, c: &Vec<W>, Ghost(w): Ghost<nat>) -> (r: Vec<u128>)
    requires
        s.nat_of() < exp2(w),
        block_ok(c@, w),
        c@.len() < usize::MAX,
    ensures
        r@.map_values(|v: u128| v as nat) == share_poly(s, c@),
        forall|t: int| 0 <= t < r@.len() ==> ((#[trigger] r@[t]) as nat) < exp2(w),
{
    let mut r: Vec<u128> = Vec::new();
    r.push(s.to_u128());
    let mut t: usize = 0;
    while t < c.len()
        invariant
            s.nat_of() < exp2(w),
            block_ok(c@, w),
            0 <= t <= c@.len(),
            r@.len() == t + 1,
            r@[0] as nat == s.nat_of(),
            forall|t2: int| 0 <= t2 < t ==> #[trigger] r@[t2 + 1] as nat == c@[t2].nat_of(),
            forall|t2: int| 0 <= t2 < r@.len() ==> ((#[trigger] r@[t2]) as nat) < exp2(w),
        decreases c@.len() - t,
    {
        let v = c[t].to_u128();
        r.push(v);
        t = t + 1;
    }
    proof {
        let rs = r@.map_values(|v: u128| v as nat);
        assert forall|t2: int| 0 <= t2 < rs.len() implies #[trigger] rs[t2] == share_poly(s, c@)[t2] by {
            if t2 > 0 {
                assert(r@[(t2 - 1) + 1] as nat == c@[t2 - 1].nat_of());
            }
        }
        assert(rs =~= share_poly(s, c@));
    }
    r
}

/// Split `secret` into `n` shares with the given further coefficients:
/// word `b` is shared by the polynomial with constant term `secret[b]`
/// followed by `coeffs[b]`. Share `i` holds `x = i + 1` and then the value
/// at `x` of each word's polynomial.
pub fn generate_with<W: Word>(secret: &[W], n: usize, coeffs: &[Vec<W>], f: &FieldParams) -> (shares: Vec<Vec<W>>)
    requires
        f.wf(),
        f.w() <= W::width_of(),
        (n as nat) < exp2(f.w()),
        block_ok(secret@, f.w()),
        coeffs@.len() == secret@.len(),
        forall|b: int| 0 <= b < coeffs@.len() ==> block_ok((#[trigger] coeffs@[b])@, f.w()),
        forall|b: int| 0 <= b < coeffs@.len() ==> (#[trigger] coeffs@[b])@.len() < usize::MAX,
    ensures
        shares@.len() == n,
        forall|i: int| 0 <= i < n ==> (#[trigger] shares@[i])@.len() == secret@.len() + 1,
        forall|i: int| 0 <= i < n ==> (#[trigger] shares@[i])@[0].nat_of() == i + 1,
        forall|i: int, b: int| 0 <= i < n && 0 <= b < secret@.len()
            ==> (#[trigger] shares@[i]@[b + 1]).nat_of()
                == peval(share_poly(secret@[b], coeffs@[b]@), (i + 1) as nat, f.m()),
{
    proof {
        lemma_exp2_mono(f.w(), W::width_of());
        lemma_exp2_values();
        lemma_exp2_mono(f.w(), 64);
    }
    let len = secret.len();
    let mut shares: Vec<Vec<W>> = Vec::new();
    let mut i: usize = 0;
    while i < n
        invariant
            f.wf(),
            f.w() <= W::width_of(),
            exp2(f.w()) <= exp2(W::width_of()),
            exp2(f.w()) <= exp2(64),
            (n as nat) < exp2(f.w()),
            len == secret@.len(),
            block_ok(secret@, f.w()),
            coeffs@.len() == len,
            forall|b: int| 0 <= b < coeffs@.len() ==> block_ok((#[trigger] coeffs@[b])@, f.w()),
            forall|b: int| 0 <= b < coeffs@.len() ==> (#[trigger] coeffs@[b])@.len() < usize::MAX,
            0 <= i <= n,
            shares@.len() == i,
            forall|i2: int| 0 <= i2 < i ==> (#[trigger] shares@[i2])@.len() == len + 1,
            forall|i2: int| 0 <= i2 < i ==> (#[trigger] shares@[i2])@[0].nat_of() == i2 + 1,
            forall|i2: int, b: int| 0 <= i2 < i && 0 <= b < len
                ==> (#[trigger] shares@[i2]@[b + 1]).nat_of()
                    == peval(share_poly(secret@[b], coeffs@[b]@), (i2 + 1) as nat, f.m()),
        decreases n - i,
    {
        let x = (i + 1) as u128;
        let mut share: Vec<W> = Vec::new();
        share.push(W::of_u128(x));
        let mut b: usize = 0;
        while b < len
            invariant
                f.wf(),
                f.w() <= W::width_of(),
                exp2(f.w()) <= exp2(W::width_of()),
                (x as nat) < exp2(f.w()),
                x as nat == i + 1,
                len == secret@.len(),
                block_ok(secret@, f.w()),
                coeffs@.len() == len,
                forall|b2: int| 0 <= b2 < coeffs@.len() ==> block_ok((#[trigger] coeffs@[b2])@, f.w()),
                forall|b2: int| 0 <= b2 < coeffs@.len() ==> (#[trigger] coeffs@[b2])@.len() < usize::MAX,
                0 <= b <= len,
                share@.len() == b + 1,
                share@[0].nat_of() == i + 1,
                forall|b2: int| 0 <= b2 < b ==> (#[trigger] share@[b2 + 1]).nat_of()
                    == peval(share_poly(secret@[b2], coeffs@[b2]@), x as nat, f.m()),
            decreases len - b,
        {
            let c = poly_of(secret[b], &coeffs[b], Ghost(f.w()));
            let y = eval_poly(&c, x, f);
            share.push(W::of_u128(y));
            b = b + 1;
        }
        shares.push(share);
        i = i + 1;
    }
    shares
}

/// Split `secret` into `n` shares, any `k` of which give it back (any one
/// when `k` is `0`): each word is shared by a polynomial of degree `k - 1`
/// whose further coefficients are drawn at random from the non-zero field
/// elements.
pub fn generate<W: Word>(secret: &[W], n: usize, k: usize, f: &FieldParams) -> (shares: Vec<Vec<W>>)
    requires
        f.wf(),
        f.w() <= W::width_of(),
        k < usize::MAX,
        (n as nat) < exp2(f.w()),
        block_ok(secret@, f.w()),
    ensures
        shares@.len() == n,
        forall|i: int| 0 <= i < n ==> (#[trigger] shares@[i])@.len() == secret@.len() + 1,
        forall|i: int| 0 <= i < n ==> (#[trigger] shares@[i])@[0].nat_of() == i + 1,
        exists|cs: Seq<Seq<nat>>| #[trigger] shared_by(shares@, secret@, cs, n as nat, threshold(k), f.m(), f.w()),
{
    let kk: usize = if k == 0 { 1 } else { k };
    let coeffs: Vec<Vec<W>> = draw_coeffs(secret.len(), kk - 1, f);
    proof {
        assert forall|b: int| 0 <= b < coeffs@.len() implies block_ok((#[trigger] coeffs@[b])@, f.w()) by {
            assert forall|t: int| 0 <= t < coeffs@[b]@.len() implies (#[trigger] coeffs@[b]@[t]).nat_of() < exp2(f.w()) by {
                assert(0 < coeffs@[b]@[t].nat_of() < exp2(f.w()));
            }
        }
    }
    let shares = generate_with(secret, n, coeffs.as_slice(), f);
    proof {
        let cs = Seq::new(secret@.len(), |b: int| share_poly(secret@[b], coeffs@[b]@));
        assert forall|b: int| 0 <= b < secret@.len() implies sharing_poly(#[trigger] cs[b], secret@[b].nat_of(), threshold(k), f.w()) by {
            assert forall|t: int| 0 < t < threshold(k) implies 0 < #[trigger] cs[b][t] < exp2(f.w()) by {
                assert(cs[b][t] == coeffs@[b]@[t - 1].nat_of());
                assert(0 < coeffs@[b]@[t - 1].nat_of() < exp2(f.w()));
            }
        }
        assert forall|b: int| 0 <= b < secret@.len() implies shares_follow(shares@, b, #[trigger] cs[b], n as nat, f.m()) by {
            assert forall|i: int| 0 <= i < n implies (#[trigger] shares@[i])@[b + 1].nat_of() == peval(cs[b], (i + 1) as nat, f.m()) by {
                assert(shares@[i]@[b + 1].nat_of() == peval(share_poly(secret@[b], coeffs@[b]@), (i + 1) as nat, f.m()));
            }
        }
        assert(shared_by(shares@, secret@, cs, n as nat, threshold(k), f.m(), f.w()));
    }
    shares
}

/// The secret that `shares` give: for each word, the value at zero of the
/// polynomial through the shares' points.
pub fn reconstruct<W: Word>(shares: &[Vec<W>], f: &FieldParams) -> (secret: Vec<W>)
    requires
        f.wf(),
        f.w() <= W::width_of(),
        forall|j: int| 0 <= j < shares@.len() ==> (#[trigger] shares@[j])@.len() == shares@[0]@.len(),
        forall|j: int| 0 <= j < shares@.len() ==> block_ok((#[trigger] shares@[j])@, f.w()),
    ensures
        secret@.len() == (if shares@.len() == 0 || shares@[0]@.len() == 0 { 0 } else { shares@[0]@.len() - 1 }),
        forall|b: int| 0 <= b < secret@.len() ==> (#[trigger] secret@[b]).nat_of()
            == interpolate(share_xs(shares@), share_ys(shares@, b), shares@.len() as int, f.m(), f.w()),
{
    let mut secret: Vec<W> = Vec::new();
    if shares.len() == 0 || shares[0].len() == 0 {
        return secret;
    }
    proof {
        lemma_exp2_mono(f.w(), W::width_of());
    }
    let n = shares.len();
    let len = shares[0].len();
    let mut xs: Vec<u128> = Vec::new();
    let mut j: usize = 0;
    while j < n
        invariant
            n == shares@.len(),
            len == shares@[0]@.len(),
            len > 0,
            forall|j2: int| 0 <= j2 < n ==> (#[trigger] shares@[j2])@.len() == len,
            forall|j2: int| 0 <= j2 < n ==> block_ok((#[trigger] shares@[j2])@, f.w()),
            0 <= j <= n,
            xs@.len() == j,
            forall|j2: int| 0 <= j2 < j ==> (#[trigger] xs@[j2]) as nat == shares@[j2]@[0].nat_of(),
            forall|j2: int| 0 <= j2 < j ==> ((#[trigger] xs@[j2]) as nat) < exp2(f.w()),
        decreases n - j,
    {
        assert(shares@[j as int]@.len() == len);
        let x = shares[j][0].to_u128();
        xs.push(x);
        j = j + 1;
    }
    proof {
        assert(xs@.map_values(|v: u128| v as nat) =~= share_xs(shares@));
    }
    let mut b: usize = 1;
    while b < len
        invariant
            f.wf(),
            exp2(f.w()) <= exp2(W::width_of()),
            n == shares@.len(),
            len == shares@[0]@.len(),
            forall|j2: int| 0 <= j2 < n ==> (#[trigger] shares@[j2])@.len() == len,
            forall|j2: int| 0 <= j2 < n ==> block_ok((#[trigger] shares@[j2])@, f.w()),
            xs@.len() == n,
            xs@.map_values(|v: u128| v as nat) == share_xs(shares@),
            forall|j2: int| 0 <= j2 < n ==> ((#[trigger] xs@[j2]) as nat) < exp2(f.w()),
            1 <= b <= len,
            secret@.len() == b - 1,
            forall|b2: int| 0 <= b2 < b - 1 ==> (#[trigger] secret@[b2]).nat_of()
                == interpolate(share_xs(shares@), share_ys(shares@, b2), n as int, f.m(), f.w()),
        decreases len - b,
    {
        let mut ys: Vec<u128> = Vec::new();
        let mut j: usize = 0;
        while j < n
            invariant
                n == shares@.len(),
                len == shares@[0]@.len(),
                forall|j2: int| 0 <= j2 < n ==> (#[trigger] shares@[j2])@.len() == len,
                forall|j2: int| 0 <= j2 < n ==> block_ok((#[trigger] shares@[j2])@, f.w()),
                1 <= b < len,
                0 <= j <= n,
                ys@.len() == j,
                forall|j2: int| 0 <= j2 < j ==> (#[trigger] ys@[j2]) as nat == shares@[j2]@[b as int].nat_of(),
                forall|j2: int| 0 <= j2 < j ==> ((#[trigger] ys@[j2]) as nat) < exp2(f.w()),
            decreases n - j,
        {
            assert(shares@[j as int]@.len() == len);
            let y = shares[j][b].to_u128();
            ys.push(y);
            j = j + 1;
        }
        proof {
            assert(ys@.map_values(|v: u128| v as nat) =~= share_ys(shares@, b - 1));
        }
        let v = interpolate_at_zero(&xs, &ys, f);
        secret.push(W::of_u128(v));
        b = b + 1;
    }
    secret
}

/// The shares at the positions `idx`, in that order.
pub open spec fn pick<W>(shares: Seq<Vec<W>>, idx: Seq<int>) -> Seq<Vec<W>> {
    Seq::new(idx.len(), |j: int| shares[idx[j]])
}

/// Any `k` or more distinct shares of those that shared `secret` with
/// polynomials of `k` coefficients give word `b` of the secret back: the
/// value at zero of the polynomial through their points is that word.
pub proof fn lemma_shares_give_secret<W: Word>(
    shares: Seq<Vec<W>>,
    secret: Seq<W>,
    cs: Seq<Seq<nat>>,
    n: nat,
    k: nat,
    idx: Seq<int>,
    b: int,
    m: nat,
    w: nat,
)
    requires
        modulus_ok(m, w),
        field_inverts(m, w),
        shared_by(shares, secret, cs, n, k, m, w),
        block_ok(secret, w),
        n < exp2(w),
        forall|i: int| 0 <= i < n ==> (#[trigger] shares[i])@.len() == secret.len() + 1,
        forall|i: int| 0 <= i < n ==> (#[trigger] shares[i])@[0].nat_of() == i + 1,
        1 <= k <= idx.len(),
        forall|j: int| 0 <= j < idx.len() ==> 0 <= #[trigger] idx[j] < n,
        forall|j1: int, j2: int| 0 <= j1 < j2 < idx.len() ==> idx[j1] != idx[j2],
        0 <= b < secret.len(),
    ensures
        interpolate(share_xs(pick(shares, idx)), share_ys(pick(shares, idx), b), idx.len() as int, m, w)
            == secret[b].nat_of(),
{
    let picked = pick(shares, idx);
    let xs = share_xs(picked);
    let c = cs[b];
    assert(sharing_poly(c, secret[b].nat_of(), k, w));
    assert(shares_follow(shares, b, c, n, m));
    assert forall|t: int| 0 <= t < xs.len() implies #[trigger] xs[t] < exp2(w) by {
        assert(shares[idx[t]]@[0].nat_of() == idx[t] + 1);
    }
    assert forall|j1: int, j2: int| 0 <= j1 < j2 < xs.len() implies xs[j1] != xs[j2] by {
        assert(shares[idx[j1]]@[0].nat_of() == idx[j1] + 1);
        assert(shares[idx[j2]]@[0].nat_of() == idx[j2] + 1);
    }
    assert forall|t: int| 0 <= t < c.len() implies #[trigger] c[t] < exp2(w) by {
        if t == 0 {
            assert(secret[b].nat_of() < exp2(w));
        }
    }
    assert(share_ys(picked, b) =~= Seq::new(xs.len(), |t: int| peval(c, xs[t], m))) by {
        assert forall|t: int| 0 <= t < xs.len() implies #[trigger] share_ys(picked, b)[t] == peval(c, xs[t], m) by {
            assert(shares[idx[t]]@[0].nat_of() == idx[t] + 1);
            assert(shares[idx[t]]@[b + 1].nat_of() == peval(c, (idx[t] + 1) as nat, m));
        }
    }
    lemma_interpolate_poly(xs, c, m, w);
}

} // verus!
