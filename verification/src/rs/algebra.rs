//! Why encoding gives a codeword: evaluation at a point is linear, every
//! power `g^j` with `j < ecc` is a root of the generator polynomial, and
//! each step of the synthetic division subtracts a multiple of the
//! generator, which leaves the value at such a root unchanged.

use vstd::prelude::*;
use crate::poly::{
    exp2, bitlen, pxor, pmul, pmod, mulmod, powmod, lemma_pxor_zero, lemma_pxor_comm, lemma_pxor_swap,
    lemma_pxor_self, lemma_pmul_zero, lemma_pmod_small, lemma_mulmod_comm, lemma_mulmod_assoc,
    lemma_mulmod_distrib, lemma_mulmod_one, lemma_bitlen_le,
};
use crate::rs::{beval, syndrome, mul_linear, generator_poly, div_step, synth_div};

verus! {

/// `a + b`, entry by entry.
pub open spec fn seq_xor(a: Seq<nat>, b: Seq<nat>) -> Seq<nat> {
    Seq::new(a.len(), |i: int| pxor(a[i], b[i]))
}

/// `c * a`, entry by entry.
pub open spec fn seq_scale(a: Seq<nat>, c: nat, m: nat) -> Seq<nat> {
    Seq::new(a.len(), |i: int| mulmod(c, a[i], m))
}

/// `h` with its first `i` entries set to zero.
pub open spec fn clear_front(h: Seq<nat>, i: nat) -> Seq<nat> {
    Seq::new(h.len(), |t: int| if t < i { 0 } else { h[t] })
}

/// `gp` placed at positions `i ..` of a sequence of `n` zeros.
pub open spec fn placed(gp: Seq<nat>, i: int, n: nat) -> Seq<nat> {
    Seq::new(n, |t: int| if i <= t < i + gp.len() { gp[t - i] } else { 0 })
}

proof fn lemma_mulmod_zero(a: nat, m: nat)
    requires
        m > 0,
    ensures
        mulmod(a, 0, m) == 0,
        mulmod(0, a, m) == 0,
{
    lemma_pmul_zero(a);
    assert(bitlen(0) == 0);
    lemma_pmod_small(0, m);
}

/// Evaluation is additive.
pub proof fn lemma_beval_xor(a: Seq<nat>, b: Seq<nat>, x: nat, m: nat)
    requires
        m > 0,
        a.len() == b.len(),
    ensures
        beval(seq_xor(a, b), x, m) == pxor(beval(a, x, m), beval(b, x, m)),
    decreases a.len(),
{
    if a.len() == 0 {
        lemma_pxor_zero(0);
    } else {
        let s = seq_xor(a, b);
        assert(s.drop_last() =~= seq_xor(a.drop_last(), b.drop_last()));
        lemma_beval_xor(a.drop_last(), b.drop_last(), x, m);
        let ea = beval(a.drop_last(), x, m);
        let eb = beval(b.drop_last(), x, m);
        lemma_mulmod_comm(pxor(ea, eb), x, m);
        lemma_mulmod_distrib(x, ea, eb, m);
        lemma_mulmod_comm(ea, x, m);
        lemma_mulmod_comm(eb, x, m);
        lemma_pxor_swap(mulmod(ea, x, m), mulmod(eb, x, m), a.last(), b.last());
    }
}

/// Evaluation commutes with scaling.
pub proof fn lemma_beval_scale(a: Seq<nat>, c: nat, x: nat, m: nat)
    requires
        m > 0,
    ensures
        beval(seq_scale(a, c, m), x, m) == mulmod(c, beval(a, x, m), m),
    decreases a.len(),
{
    if a.len() == 0 {
        lemma_mulmod_zero(c, m);
    } else {
        let s = seq_scale(a, c, m);
        assert(s.drop_last() =~= seq_scale(a.drop_last(), c, m));
        lemma_beval_scale(a.drop_last(), c, x, m);
        let ea = beval(a.drop_last(), x, m);
        lemma_mulmod_assoc(c, ea, x, m);
        lemma_mulmod_distrib(c, mulmod(ea, x, m), a.last(), m);
    }
}

/// A zero in front does not change the value.
proof fn lemma_beval_zero_front(a: Seq<nat>, x: nat, m: nat)
    requires
        m > 0,
    ensures
        beval(seq![0nat] + a, x, m) == beval(a, x, m),
    decreases a.len(),
{
    let s = seq![0nat] + a;
    if a.len() == 0 {
        assert(s.drop_last() =~= Seq::<nat>::empty());
        assert(beval(s.drop_last(), x, m) == 0);
        lemma_mulmod_zero(x, m);
        lemma_pxor_zero(0);
        assert(s.last() == 0);
        assert(beval(s, x, m) == pxor(mulmod(0, x, m), 0));
    } else {
        assert(s.drop_last() =~= seq![0nat] + a.drop_last());
        assert(s.last() == a.last());
        lemma_beval_zero_front(a.drop_last(), x, m);
        assert(beval(s.drop_last(), x, m) == beval(a.drop_last(), x, m));
    }
}

/// A zero at the end multiplies the value by `x`.
proof fn lemma_beval_zero_back(a: Seq<nat>, x: nat, m: nat)
    ensures
        beval(a.push(0), x, m) == mulmod(beval(a, x, m), x, m),
{
    assert(a.push(0).drop_last() =~= a);
    lemma_pxor_zero(mulmod(beval(a, x, m), x, m));
}

/// `f` times `x + r`, evaluated at `x`.
pub proof fn lemma_beval_mul_linear(f: Seq<nat>, r: nat, x: nat, m: nat)
    requires
        m > 0,
    ensures
        beval(mul_linear(f, r, m), x, m) == mulmod(beval(f, x, m), pxor(x, r), m),
{
    let a = f.push(0);
    let b = seq![0nat] + seq_scale(f, r, m);
    assert(mul_linear(f, r, m) =~= seq_xor(a, b));
    lemma_beval_xor(a, b, x, m);
    lemma_beval_zero_back(f, x, m);
    lemma_beval_zero_front(seq_scale(f, r, m), x, m);
    lemma_beval_scale(f, r, x, m);
    let e = beval(f, x, m);
    lemma_mulmod_comm(r, e, m);
    lemma_mulmod_distrib(e, x, r, m);
}

/// Each `g^j` with `j < k` is a root of the generator polynomial with `k`
/// roots.
pub proof fn lemma_generator_roots(k: nat, j: nat, g: nat, m: nat)
    requires
        m > 0,
        j < k,
    ensures
        beval(generator_poly(k, g, m), powmod(g, j, m), m) == 0,
    decreases k,
{
    let x = powmod(g, j, m);
    let prev = generator_poly((k - 1) as nat, g, m);
    let r = powmod(g, (k - 1) as nat, m);
    lemma_beval_mul_linear(prev, r, x, m);
    if j == k - 1 {
        lemma_pxor_self(x);
        lemma_mulmod_zero(beval(prev, x, m), m);
    } else {
        lemma_generator_roots((k - 1) as nat, j, g, m);
        lemma_mulmod_zero(pxor(x, r), m);
    }
}

/// A root stays a root when zeros are added at either end.
proof fn lemma_placed_root(gp: Seq<nat>, i: int, n: nat, x: nat, m: nat)
    requires
        m > 0,
        0 <= i,
        i + gp.len() <= n,
        beval(gp, x, m) == 0,
    ensures
        beval(placed(gp, i, n), x, m) == 0,
    decreases n,
{
    let p = placed(gp, i, n);
    if n == i + gp.len() {
        if i == 0 {
            assert(p =~= gp);
        } else {
            assert(p =~= seq![0nat] + placed(gp, i - 1, (n - 1) as nat));
            lemma_placed_root(gp, i - 1, (n - 1) as nat, x, m);
            lemma_beval_zero_front(placed(gp, i - 1, (n - 1) as nat), x, m);
        }
    } else {
        assert(p =~= placed(gp, i, (n - 1) as nat).push(0));
        lemma_placed_root(gp, i, (n - 1) as nat, x, m);
        lemma_beval_zero_back(placed(gp, i, (n - 1) as nat), x, m);
        lemma_mulmod_zero(x, m);
    }
}

/// One step of the division by a monic `gp`, at a root `x` of `gp`, keeps
/// the value of what lies from the step's position on.
pub proof fn lemma_div_step_value(h: Seq<nat>, gp: Seq<nat>, i: nat, x: nat, m: nat, w: nat)
    requires
        bitlen(m) == w + 1,
        gp.len() >= 1,
        gp[0] == 1,
        i + gp.len() <= h.len(),
        h[i as int] < exp2(w),
        beval(gp, x, m) == 0,
    ensures
        beval(clear_front(div_step(h, gp, i as int, m), i + 1), x, m) == beval(clear_front(h, i), x, m),
{
    assert(m > 0) by {
        if m == 0 {
            assert(bitlen(0) == 0);
        }
    }
    let c = h[i as int];
    let n = h.len();
    if c == 0 {
        assert(clear_front(div_step(h, gp, i as int, m), i + 1) =~= clear_front(h, i));
    } else {
        let p = placed(gp, i as int, n);
        let lhs = clear_front(div_step(h, gp, i as int, m), i + 1);
        let rhs = seq_xor(clear_front(h, i), seq_scale(p, c, m));
        lemma_bitlen_le(c, w);
        lemma_pmod_small(c, m);
        lemma_mulmod_one(c, m);
        lemma_mulmod_zero(c, m);
        assert forall|t: int| 0 <= t < n implies #[trigger] lhs[t] == rhs[t] by {
            if t < i {
                lemma_pxor_zero(0);
            } else if t == i {
                lemma_pxor_self(c);
            } else if t < i + gp.len() {
            } else {
                lemma_pxor_zero(h[t]);
            }
        }
        assert(lhs =~= rhs);
        lemma_beval_xor(clear_front(h, i), seq_scale(p, c, m), x, m);
        lemma_beval_scale(p, c, x, m);
        lemma_placed_root(gp, i as int, n, x, m);
        lemma_pxor_zero(beval(clear_front(h, i), x, m));
    }
}

/// The word `a + b` has, at any point, the sum of the values of `a` and `b`;
/// so two words of equal syndrome add up to one of zero syndrome.
pub proof fn lemma_syndrome_sum(a: Seq<nat>, b: Seq<nat>, j: nat, g: nat, m: nat)
    requires
        m > 0,
        a.len() == b.len(),
        syndrome(a, j, g, m) == syndrome(b, j, g, m),
    ensures
        syndrome(seq_xor(a, b), j, g, m) == 0,
{
    lemma_beval_xor(a, b, powmod(g, j, m), m);
    lemma_pxor_self(syndrome(a, j, g, m));
}

/// The generator polynomial with `k` roots has `k + 1` coefficients, the
/// first of them `1`.
pub proof fn lemma_generator_monic(k: nat, g: nat, m: nat)
    ensures
        generator_poly(k, g, m).len() == k + 1,
        generator_poly(k, g, m)[0] == 1,
    decreases k,
{
    if k > 0 {
        lemma_generator_monic((k - 1) as nat, g, m);
        lemma_pxor_zero(generator_poly((k - 1) as nat, g, m)[0]);
    }
}

/// One step of encoding's division keeps the syndromes of what lies from
/// the step's position on equal to those of the dividend.
pub proof fn lemma_encode_step(h0: Seq<nat>, h1: Seq<nat>, f0: Seq<nat>, i: nat, i1: nat, ecc: nat, g: nat, m: nat, w: nat)
    requires
        i1 == i + 1,
        bitlen(m) == w + 1,
        h1 == div_step(h0, generator_poly(ecc, g, m), i as int, m),
        i + ecc + 1 <= h0.len(),
        h0[i as int] < exp2(w),
        forall|j: nat| j < ecc ==> #[trigger] syndrome(clear_front(h0, i), j, g, m) == syndrome(f0, j, g, m),
    ensures
        forall|j: nat| j < ecc ==> #[trigger] syndrome(clear_front(h1, i1), j, g, m) == syndrome(f0, j, g, m),
{
    let gp = generator_poly(ecc, g, m);
    assert(m > 0) by {
        if m == 0 {
            assert(bitlen(0) == 0);
        }
    }
    lemma_generator_monic(ecc, g, m);
    assert forall|j: nat| j < ecc implies #[trigger] syndrome(clear_front(h1, i1), j, g, m) == syndrome(f0, j, g, m) by {
        assert(syndrome(clear_front(h0, i), j, g, m) == syndrome(f0, j, g, m));
        lemma_generator_roots(ecc, j, g, m);
        lemma_div_step_value(h0, gp, i, powmod(g, j, m), m, w);
    }
}

} // verus!
