//! Widening carry-less multiplication.
//!
//! Each `xmulN` returns the product of two `N`-bit polynomials as a pair
//! `(lo, hi)` of `N`-bit words, `lo + hi * 2^N` being the full product.

use vstd::prelude::*;
use vstd::arithmetic::div_mod::{lemma_div_denominator, lemma_fundamental_div_mod_converse};
use crate::poly::{
    exp2, pxor, pmul, lemma_exp2_pos, lemma_exp2_add, lemma_exp2_mono, lemma_pxor_bound,
    lemma_pmul_unfold, lemma_pmul_zero, lemma_pmul_bound, lemma_pxor_disjoint,
    lemma_pmul_distrib_left, lemma_pmul_distrib_right, lemma_pmul_shift, lemma_pxor_swap,
    lemma_pxor_concat, lemma_pxor_zero, lemma_pxor_assoc, lemma_pxor_comm,
};
use crate::bits::{lemma_xor, lemma_shr, lemma_shl, lemma_exp2_values};

verus! {

/// Whether hardware carry-less multiplication is used. The products here are
/// always computed in software.
pub const HAS_XMUL: bool = false;

/// The product of `a` (at most `na` digits) and `b` (at most `nb` digits),
/// when it fits in 128 bits.
pub fn clmul(a: u128, b: u128, na: u32, nb: u32) -> (r: u128)
    requires
        a < exp2(na as nat),
        b < exp2(nb as nat),
        na + nb <= 128,
    ensures
        r as nat == pmul(a as nat, b as nat),
{
    let mut acc: u128 = 0;
    let mut i: u32 = nb;
    proof {
        lemma_exp2_values();
        lemma_exp2_pos((na + nb) as nat);
        lemma_fundamental_div_mod_converse(b as int, exp2(nb as nat) as int, 0, b as int);
        lemma_pmul_zero(a as nat);
    }
    while i > 0
        invariant
            i <= nb,
            a < exp2(na as nat),
            b < exp2(nb as nat),
            na + nb <= 128,
            acc as nat == pmul(a as nat, b as nat / exp2(i as nat)),
            (acc as nat) < exp2((na + nb - i) as nat),
        decreases i,
    {
        let ghost old_i = i;
        i = i - 1;
        proof {
            lemma_shr(b, i);
            lemma_exp2_pos(i as nat);
            lemma_div_denominator(b as int, exp2(i as nat) as int, 2);
            assert(exp2(old_i as nat) == 2 * exp2(i as nat));
            lemma_exp2_values();
            lemma_exp2_mono((na + nb - old_i + 1) as nat, 128);
            assert(exp2((na + nb - i) as nat) == 2 * exp2((na + nb - old_i) as nat));
            lemma_shl(acc, 1);
        }
        let q: u128 = b >> i;
        let bit: u128 = q % 2;
        let shifted: u128 = acc << 1u32;
        let term: u128 = if bit == 1 { a } else { 0 };
        proof {
            lemma_xor(term, shifted);
            lemma_pmul_unfold(a as nat, q as nat);
            lemma_exp2_mono(na as nat, (na + nb - i) as nat);
            lemma_pxor_bound(term as nat, shifted as nat, (na + nb - i) as nat);
        }
        acc = term ^ shifted;
    }
    proof {
        assert(exp2(i as nat) == 1);
        assert(b as nat / 1 == b as nat);
        assert(b as nat / exp2(i as nat) == b as nat);
    }
    acc
}

/// Widening carry-less multiplication of 8-bit polynomials.
pub fn xmul8(a: u8, b: u8) -> (r: (u8, u8))
    ensures
        r.0 as nat + r.1 as nat * exp2(8) == pmul(a as nat, b as nat),
{
    proof {
        lemma_exp2_values();
        lemma_exp2_add(8, 8);
    }
    let p = clmul(a as u128, b as u128, 8, 8);
    proof {
        lemma_pmul_bound(a as nat, b as nat, 8, 8);
    }
    ((p % 0x100) as u8, (p / 0x100) as u8)
}

/// Widening carry-less multiplication of 16-bit polynomials.
pub fn xmul16(a: u16, b: u16) -> (r: (u16, u16))
    ensures
        r.0 as nat + r.1 as nat * exp2(16) == pmul(a as nat, b as nat),
{
    proof {
        lemma_exp2_values();
        lemma_exp2_add(16, 16);
    }
    let p = clmul(a as u128, b as u128, 16, 16);
    proof {
        lemma_pmul_bound(a as nat, b as nat, 16, 16);
    }
    ((p % 0x10000) as u16, (p / 0x10000) as u16)
}

/// Widening carry-less multiplication of 32-bit polynomials.
pub fn xmul32(a: u32, b: u32) -> (r: (u32, u32))
    ensures
        r.0 as nat + r.1 as nat * exp2(32) == pmul(a as nat, b as nat),
{
    proof {
        lemma_exp2_values();
        lemma_exp2_add(32, 32);
    }
    let p = clmul(a as u128, b as u128, 32, 32);
    proof {
        lemma_pmul_bound(a as nat, b as nat, 32, 32);
    }
    ((p % 0x1_0000_0000) as u32, (p / 0x1_0000_0000) as u32)
}

/// Widening carry-less multiplication of 64-bit polynomials.
pub fn xmul64(a: u64, b: u64) -> (r: (u64, u64))
    ensures
        r.0 as nat + r.1 as nat * exp2(64) == pmul(a as nat, b as nat),
{
    proof {
        lemma_exp2_values();
    }
    let p = clmul(a as u128, b as u128, 64, 64);
    proof {
        lemma_pmul_bound(a as nat, b as nat, 64, 64);
    }
    ((p % 0x1_0000_0000_0000_0000) as u64, (p / 0x1_0000_0000_0000_0000) as u64)
}

/// Widening carry-less multiplication of 128-bit polynomials, built from four
/// 64-bit products.
pub fn xmul128(a: u128, b: u128) -> (r: (u128, u128))
    ensures
        r.0 as nat + r.1 as nat * exp2(128) == pmul(a as nat, b as nat),
{
    let ghost e = exp2(64);
    let ghost e2 = exp2(128);
    proof {
        lemma_exp2_values();
        lemma_exp2_add(64, 64);
    }
    let a0: u128 = a % 0x1_0000_0000_0000_0000;
    let a1: u128 = a / 0x1_0000_0000_0000_0000;
    let b0: u128 = b % 0x1_0000_0000_0000_0000;
    let b1: u128 = b / 0x1_0000_0000_0000_0000;
    let x = clmul(a0, b0, 64, 64);
    let y = clmul(a1, b0, 64, 64);
    let z = clmul(a0, b1, 64, 64);
    let w = clmul(a1, b1, 64, 64);
    let mid: u128 = y ^ z;
    let m0: u128 = mid % 0x1_0000_0000_0000_0000;
    let m1: u128 = mid / 0x1_0000_0000_0000_0000;
    proof {
        assert(m0 * 0x1_0000_0000_0000_0000 < 0x1_0000_0000_0000_0000_0000_0000_0000_0000)
            by (nonlinear_arith)
            requires
                m0 < 0x1_0000_0000_0000_0000,
        ;
    }
    let m0s: u128 = m0 * 0x1_0000_0000_0000_0000;
    let lo: u128 = x ^ m0s;
    let hi: u128 = w ^ m1;
    proof {
        let (na, nb, nx, ny, nz, nw) = (a as nat, b as nat, x as nat, y as nat, z as nat, w as nat);
        // the factors split at digit 64
        assert(na == (a1 as nat) * e + a0 as nat);
        assert(nb == (b1 as nat) * e + b0 as nat);
        lemma_pxor_disjoint(a1 as nat, a0 as nat, 64);
        lemma_pxor_disjoint(b1 as nat, b0 as nat, 64);
        let ah = (a1 as nat) * e;
        let bh = (b1 as nat) * e;
        // distribute the product over the four parts
        lemma_pmul_distrib_left(ah, a0 as nat, nb);
        lemma_pmul_distrib_right(ah, bh, b0 as nat);
        lemma_pmul_distrib_right(a0 as nat, bh, b0 as nat);
        lemma_pmul_shift(a1 as nat, bh, 64);
        lemma_pmul_shift(b1 as nat, a1 as nat, 64);
        crate::poly::lemma_pmul_comm(b1 as nat, a1 as nat);
        lemma_pmul_shift(a1 as nat, b0 as nat, 64);
        lemma_pmul_shift(b1 as nat, a0 as nat, 64);
        crate::poly::lemma_pmul_comm(b1 as nat, a0 as nat);
        assert(pmul(ah, bh) == nw * e * e);
        assert(nw * e * e == nw * e2) by (nonlinear_arith)
            requires
                e2 == e * e,
        ;
        // regroup the four terms
        let ta = nw * e2;
        let tb = ny * e;
        let tc = nz * e;
        lemma_pxor_assoc(ta, tb, pxor(tc, nx));
        lemma_pxor_assoc(tb, tc, nx);
        lemma_pxor_assoc(ta, pxor(tb, tc), nx);
        lemma_pxor_concat(ny, 0, nz, 0, 64);
        lemma_pxor_zero(0);
        lemma_xor(y, z);
        assert(pxor(tb, tc) == (mid as nat) * e);
        // place the middle term
        assert((mid as nat) * e == (m1 as nat) * e2 + (m0 as nat) * e) by (nonlinear_arith)
            requires
                mid as nat == (m1 as nat) * e + m0 as nat,
                e2 == e * e,
        ;
        lemma_pxor_concat(nw, 0, m1 as nat, (m0 as nat) * e, 128);
        lemma_xor(w, m1);
        lemma_pxor_zero((m0 as nat) * e);
        crate::poly::lemma_pmul_bound(a0 as nat, b0 as nat, 64, 64);
        lemma_pxor_concat(hi as nat, (m0 as nat) * e, 0, nx, 128);
        lemma_pxor_zero(hi as nat);
        lemma_xor(x, m0s);
        lemma_pxor_comm(nx, (m0 as nat) * e);
        assert(0 * e2 + nx == nx);
    }
    (lo, hi)
}

} // verus!
