//! Machine words seen as binary polynomials: what `^`, `<<` and `>>` on
//! `u128` mean in terms of the model of `poly`.

use vstd::prelude::*;
use vstd::arithmetic::div_mod::lemma_div_denominator;
use crate::poly::{exp2, pxor, lemma_exp2_add, lemma_exp2_pos, lemma_pxor_unfold, lemma_bits_eq};

verus! {

pub proof fn lemma_exp2_values()
    ensures
        exp2(1) == 2,
        exp2(4) == 0x10,
        exp2(8) == 0x100,
        exp2(16) == 0x10000,
        exp2(32) == 0x1_0000_0000,
        exp2(64) == 0x1_0000_0000_0000_0000,
        exp2(127) == 0x8000_0000_0000_0000_0000_0000_0000_0000,
        exp2(128) == 0x1_0000_0000_0000_0000_0000_0000_0000_0000,
{
    assert(exp2(0) == 1);
    assert(exp2(1) == 2 * exp2(0));
    lemma_exp2_add(1, 1);
    assert(exp2(2) == 4);
    lemma_exp2_add(2, 2);
    assert(exp2(4) == 0x10);
    lemma_exp2_add(4, 4);
    assert(exp2(8) == 0x100);
    lemma_exp2_add(8, 8);
    assert(exp2(16) == 0x10000);
    lemma_exp2_add(16, 16);
    assert(exp2(32) == 0x1_0000_0000);
    lemma_exp2_add(32, 32);
    assert(exp2(64) == 0x1_0000_0000_0000_0000);
    lemma_exp2_add(64, 64);
    assert(exp2(128) == 2 * exp2(127));
}

/// Exclusive or of machine words is the sum of the polynomials they encode.
pub proof fn lemma_xor(x: u128, y: u128)
    ensures
        (x ^ y) as nat == pxor(x as nat, y as nat),
    decreases x,
{
    if x == 0 {
        assert(0u128 ^ y == y) by (bit_vector);
    } else if y == 0 {
        assert(x ^ 0u128 == x) by (bit_vector);
    } else {
        let x2: u128 = x / 2;
        let y2: u128 = y / 2;
        lemma_xor(x2, y2);
        assert((x ^ y) % 2 == (x % 2 + y % 2) % 2) by (bit_vector);
        assert((x ^ y) / 2 == (x / 2) ^ (y / 2)) by (bit_vector);
        lemma_pxor_unfold(x as nat, y as nat);
        lemma_bits_eq((x ^ y) as nat, pxor(x as nat, y as nat));
    }
}

/// Right shift is division by a power of two.
pub proof fn lemma_shr(x: u128, s: u32)
    requires
        s < 128,
    ensures
        (x >> s) as nat == x as nat / exp2(s as nat),
    decreases s,
{
    if s == 0 {
        assert(x >> 0u32 == x) by (bit_vector);
        assert(exp2(0) == 1);
    } else {
        let t: u32 = (s - 1) as u32;
        lemma_shr(x, t);
        let y: u128 = x >> t;
        assert(x >> s == (x >> t) >> 1u32) by (bit_vector)
            requires
                s < 128,
                t == s - 1,
        ;
        assert(y >> 1u32 == y / 2) by (bit_vector);
        lemma_exp2_pos(t as nat);
        lemma_div_denominator(x as int, exp2(t as nat) as int, 2);
        assert(exp2(s as nat) == 2 * exp2(t as nat));
    }
}

/// Left shift without overflow is multiplication by a power of two.
pub proof fn lemma_shl(x: u128, s: u32)
    requires
        s < 128,
        x as nat * exp2(s as nat) < exp2(128),
    ensures
        (x << s) as nat == x as nat * exp2(s as nat),
    decreases s,
{
    lemma_exp2_values();
    if s == 0 {
        assert(x << 0u32 == x) by (bit_vector);
        assert(exp2(s as nat) == 1);
        assert(x as nat * exp2(s as nat) == x as nat) by (nonlinear_arith)
            requires
                exp2(s as nat) == 1,
        ;
    } else {
        let t: u32 = (s - 1) as u32;
        let e = exp2(t as nat);
        lemma_exp2_pos(t as nat);
        assert(exp2(s as nat) == 2 * e);
        assert(x * (2 * e) == 2 * (x * e)) by (nonlinear_arith);
        lemma_shl(x, t);
        let y: u128 = x << t;
        assert(x << s == (x << t) << 1u32) by (bit_vector)
            requires
                s < 128,
                t == s - 1,
        ;
        assert(y < 0x8000_0000_0000_0000_0000_0000_0000_0000);
        assert(y << 1u32 == 2 * y) by (bit_vector)
            requires
                y < 0x8000_0000_0000_0000_0000_0000_0000_0000u128,
        ;
        assert((x << s) as nat == 2 * (y as nat));
        assert(y as nat == x as nat * e);
        assert(x as nat * exp2(s as nat) == 2 * (x as nat * e)) by (nonlinear_arith)
            requires
                exp2(s as nat) == 2 * e,
        ;
    }
}

} // verus!
