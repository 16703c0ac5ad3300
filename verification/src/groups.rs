//! The multiplicative groups of the small fields are cyclic: every non-zero
//! element is a power of the field's generator, found by walking the powers
//! one multiplication at a time. From that, each non-zero `b` of a field with
//! `2^w` elements satisfies `b^(2^w - 1) == 1`, which is what makes
//! `b^(2^w - 2)` the inverse of `b`.

use vstd::prelude::*;
use crate::poly::{exp2, bitlen, pxor, mulmod, powmod};
use crate::bits::lemma_xor;
use crate::field::{
    lemma_mulmod_two, lemma_mulmod_three, lemma_pmod_one, lemma_power_of_generator, lemma_powmod_pow,
    lemma_powmod_period,
};

verus! {

/// The exclusive ors that the walk through the powers of `gf16`'s generator meets.
proof fn gf16_xor_facts()
    by (bit_vector)
    ensures
        0x10u128 ^ 0x13u128 == 0x3u128,
        0x12u128 ^ 0x13u128 == 0x1u128,
        0x14u128 ^ 0x13u128 == 0x7u128,
        0x16u128 ^ 0x13u128 == 0x5u128,
        0x18u128 ^ 0x13u128 == 0xbu128,
        0x1au128 ^ 0x13u128 == 0x9u128,
        0x1cu128 ^ 0x13u128 == 0xfu128,
        0x1eu128 ^ 0x13u128 == 0xdu128,
{
}

/// The powers of the generator of `gf16`.
#[verifier::opaque]
pub open spec fn gf16_gpow(k: nat) -> nat {
    powmod(0x2, k, 0x13)
}

/// The powers `0x2^1` to `0x2^15` in `gf16`.
#[verifier::rlimit(40)]
proof fn gf16_powers_0()
    ensures
        gf16_gpow(0) == 1,
        gf16_gpow(1) == 0x2,
        gf16_gpow(2) == 0x4,
        gf16_gpow(3) == 0x8,
        gf16_gpow(4) == 0x3,
        gf16_gpow(5) == 0x6,
        gf16_gpow(6) == 0xc,
        gf16_gpow(7) == 0xb,
        gf16_gpow(8) == 0x5,
        gf16_gpow(9) == 0xa,
        gf16_gpow(10) == 0x7,
        gf16_gpow(11) == 0xe,
        gf16_gpow(12) == 0xf,
        gf16_gpow(13) == 0xd,
        gf16_gpow(14) == 0x9,
        gf16_gpow(15) == 0x1,
{
    reveal(gf16_gpow);
    gf16_xor_facts();
    assert(bitlen(0x13) == 5) by {
        reveal_with_fuel(bitlen, 7);
    }
    assert(exp2(4) == 0x10) by {
        reveal_with_fuel(exp2, 6);
    }
    lemma_pmod_one(0x13, 4);
    assert(powmod(0x2, 0, 0x13) == 1);
    lemma_mulmod_two(0x1, 0x13, 4);
    assert(powmod(0x2, 1, 0x13) == 0x2);
    lemma_mulmod_two(0x2, 0x13, 4);
    assert(powmod(0x2, 2, 0x13) == 0x4);
    lemma_mulmod_two(0x4, 0x13, 4);
    assert(powmod(0x2, 3, 0x13) == 0x8);
    lemma_mulmod_two(0x8, 0x13, 4);
    lemma_xor(0x10u128, 0x13u128);
    assert(powmod(0x2, 4, 0x13) == 0x3);
    lemma_mulmod_two(0x3, 0x13, 4);
    assert(powmod(0x2, 5, 0x13) == 0x6);
    lemma_mulmod_two(0x6, 0x13, 4);
    assert(powmod(0x2, 6, 0x13) == 0xc);
    lemma_mulmod_two(0xc, 0x13, 4);
    lemma_xor(0x18u128, 0x13u128);
    assert(powmod(0x2, 7, 0x13) == 0xb);
    lemma_mulmod_two(0xb, 0x13, 4);
    lemma_xor(0x16u128, 0x13u128);
    assert(powmod(0x2, 8, 0x13) == 0x5);
    lemma_mulmod_two(0x5, 0x13, 4);
    assert(powmod(0x2, 9, 0x13) == 0xa);
    lemma_mulmod_two(0xa, 0x13, 4);
    lemma_xor(0x14u128, 0x13u128);
    assert(powmod(0x2, 10, 0x13) == 0x7);
    lemma_mulmod_two(0x7, 0x13, 4);
    assert(powmod(0x2, 11, 0x13) == 0xe);
    lemma_mulmod_two(0xe, 0x13, 4);
    lemma_xor(0x1cu128, 0x13u128);
    assert(powmod(0x2, 12, 0x13) == 0xf);
    lemma_mulmod_two(0xf, 0x13, 4);
    lemma_xor(0x1eu128, 0x13u128);
    assert(powmod(0x2, 13, 0x13) == 0xd);
    lemma_mulmod_two(0xd, 0x13, 4);
    lemma_xor(0x1au128, 0x13u128);
    assert(powmod(0x2, 14, 0x13) == 0x9);
    lemma_mulmod_two(0x9, 0x13, 4);
    lemma_xor(0x12u128, 0x13u128);
    assert(powmod(0x2, 15, 0x13) == 0x1);
}

/// The discrete logarithm in `gf16`: the exponent `k < 15` with `0x2^k == b`.
pub open spec fn gf16_log(b: nat) -> nat {
    if b == 0x1 {
        0
    } else if b == 0x2 {
        1
    } else if b == 0x3 {
        4
    } else if b == 0x4 {
        2
    } else if b == 0x5 {
        8
    } else if b == 0x6 {
        5
    } else if b == 0x7 {
        10
    } else if b == 0x8 {
        3
    } else if b == 0x9 {
        14
    } else if b == 0xa {
        9
    } else if b == 0xb {
        7
    } else if b == 0xc {
        6
    } else if b == 0xd {
        13
    } else if b == 0xe {
        11
    } else if b == 0xf {
        12
    } else {
        0
    }
}

/// The logarithms of the elements `0x1` to `0xf` of `gf16`.
#[verifier::rlimit(40)]
proof fn gf16_log_part_0(b: nat)
    requires
        0x1 <= b < 0x10,
    ensures
        gf16_log(b) < 15,
        gf16_gpow(gf16_log(b)) == b,
{
    gf16_powers_0();
    if b == 0x1 {
        assert(gf16_log(b) == 0);
    } else if b == 0x2 {
        assert(gf16_log(b) == 1);
    } else if b == 0x3 {
        assert(gf16_log(b) == 4);
    } else if b == 0x4 {
        assert(gf16_log(b) == 2);
    } else if b == 0x5 {
        assert(gf16_log(b) == 8);
    } else if b == 0x6 {
        assert(gf16_log(b) == 5);
    } else if b == 0x7 {
        assert(gf16_log(b) == 10);
    } else if b == 0x8 {
        assert(gf16_log(b) == 3);
    } else if b == 0x9 {
        assert(gf16_log(b) == 14);
    } else if b == 0xa {
        assert(gf16_log(b) == 9);
    } else if b == 0xb {
        assert(gf16_log(b) == 7);
    } else if b == 0xc {
        assert(gf16_log(b) == 6);
    } else if b == 0xd {
        assert(gf16_log(b) == 13);
    } else if b == 0xe {
        assert(gf16_log(b) == 11);
    } else if b == 0xf {
        assert(gf16_log(b) == 12);
    }
}

/// Every non-zero element of `gf16` is the power of the generator that its
/// logarithm names.
pub proof fn lemma_gf16_log(b: nat)
    requires
        0 < b < 0x10,
    ensures
        gf16_log(b) < 15,
        powmod(0x2, gf16_log(b), 0x13) == b,
{
    reveal(gf16_gpow);
    {
        gf16_log_part_0(b);
    }
}

/// The generator of `gf16` comes back to one after `15` steps.
proof fn gf16_generator_order()
    ensures
        powmod(0x2, 15, 0x13) == 1,
{
    gf16_powers_0();
    reveal(gf16_gpow);
}

/// The logarithms of the powers `0x2^0` to `0x2^14` in `gf16`.
#[verifier::rlimit(40)]
proof fn gf16_log_pow_part_0(k: nat)
    requires
        0 <= k < 15,
    ensures
        gf16_log(gf16_gpow(k)) == k,
{
    gf16_powers_0();
    if k == 0 {
        assert(gf16_gpow(0) == 0x1);
    } else if k == 1 {
        assert(gf16_gpow(1) == 0x2);
    } else if k == 2 {
        assert(gf16_gpow(2) == 0x4);
    } else if k == 3 {
        assert(gf16_gpow(3) == 0x8);
    } else if k == 4 {
        assert(gf16_gpow(4) == 0x3);
    } else if k == 5 {
        assert(gf16_gpow(5) == 0x6);
    } else if k == 6 {
        assert(gf16_gpow(6) == 0xc);
    } else if k == 7 {
        assert(gf16_gpow(7) == 0xb);
    } else if k == 8 {
        assert(gf16_gpow(8) == 0x5);
    } else if k == 9 {
        assert(gf16_gpow(9) == 0xa);
    } else if k == 10 {
        assert(gf16_gpow(10) == 0x7);
    } else if k == 11 {
        assert(gf16_gpow(11) == 0xe);
    } else if k == 12 {
        assert(gf16_gpow(12) == 0xf);
    } else if k == 13 {
        assert(gf16_gpow(13) == 0xd);
    } else if k == 14 {
        assert(gf16_gpow(14) == 0x9);
    }
}

/// The logarithm of a power of the generator below `15` is its exponent.
pub proof fn lemma_gf16_log_of_power(k: nat)
    requires
        k < 15,
    ensures
        gf16_log(powmod(0x2, k, 0x13)) == k,
{
    reveal(gf16_gpow);
    {
        gf16_log_pow_part_0(k);
    }
}

/// The powers of the generator below `15` are non-zero and distinct.
#[verifier::rlimit(40)]
pub proof fn lemma_gf16_powers(x: nat, y: nat)
    requires
        x < 15,
        y < 15,
    ensures
        x != y ==> powmod(0x2, x, 0x13) != powmod(0x2, y, 0x13),
        powmod(0x2, x, 0x13) != 0,
{
    lemma_gf16_log_of_power(x);
    lemma_gf16_log_of_power(y);
    gf16_powers_0();
    reveal(gf16_gpow);
    assert(gf16_log(0) == 0);
}

/// The squares of the powers of the generator below `15` are distinct.
#[verifier::rlimit(60)]
pub proof fn lemma_gf16_square_powers(x: nat, y: nat)
    requires
        x < 15,
        y < 15,
        x != y,
    ensures
        powmod(powmod(0x2, x, 0x13), 2, 0x13) != powmod(powmod(0x2, y, 0x13), 2, 0x13),
{
    assert(bitlen(0x13) == 5) by {
        reveal_with_fuel(bitlen, 7);
    }
    gf16_generator_order();
    lemma_powmod_pow(0x2, x, 2, 0x13);
    lemma_powmod_pow(0x2, y, 2, 0x13);
    let ex: nat = if x * 2 >= 15 { (x * 2 - 15) as nat } else { x * 2 };
    let ey: nat = if y * 2 >= 15 { (y * 2 - 15) as nat } else { y * 2 };
    if x * 2 >= 15 {
        lemma_powmod_period(0x2, x * 2, 15, 0x13, 4);
    }
    if y * 2 >= 15 {
        lemma_powmod_period(0x2, y * 2, 15, 0x13, 4);
    }
    lemma_gf16_powers(ex, ey);
}

/// Every non-zero `b` of `gf16` satisfies `b^15 == 1`.
pub proof fn lemma_gf16_order(b: nat)
    requires
        0 < b < 0x10,
    ensures
        powmod(b, 15, 0x13) == 1,
{
    lemma_gf16_log(b);
    gf16_powers_0();
    reveal(gf16_gpow);
    assert(bitlen(0x13) == 5) by {
        reveal_with_fuel(bitlen, 7);
    }
    lemma_power_of_generator(0x2, gf16_log(b), 15, 0x13, 4);
}

/// The exclusive ors that the walk through the powers of `gf256`'s generator meets.
proof fn gf256_xor_facts()
    by (bit_vector)
    ensures
        0x100u128 ^ 0x11du128 == 0x1du128,
        0x102u128 ^ 0x11du128 == 0x1fu128,
        0x104u128 ^ 0x11du128 == 0x19u128,
        0x106u128 ^ 0x11du128 == 0x1bu128,
        0x108u128 ^ 0x11du128 == 0x15u128,
        0x10au128 ^ 0x11du128 == 0x17u128,
        0x10cu128 ^ 0x11du128 == 0x11u128,
        0x10eu128 ^ 0x11du128 == 0x13u128,
        0x110u128 ^ 0x11du128 == 0xdu128,
        0x112u128 ^ 0x11du128 == 0xfu128,
        0x114u128 ^ 0x11du128 == 0x9u128,
        0x116u128 ^ 0x11du128 == 0xbu128,
        0x118u128 ^ 0x11du128 == 0x5u128,
        0x11au128 ^ 0x11du128 == 0x7u128,
        0x11cu128 ^ 0x11du128 == 0x1u128,
        0x11eu128 ^ 0x11du128 == 0x3u128,
        0x120u128 ^ 0x11du128 == 0x3du128,
        0x122u128 ^ 0x11du128 == 0x3fu128,
        0x124u128 ^ 0x11du128 == 0x39u128,
        0x126u128 ^ 0x11du128 == 0x3bu128,
        0x128u128 ^ 0x11du128 == 0x35u128,
        0x12au128 ^ 0x11du128 == 0x37u128,
        0x12cu128 ^ 0x11du128 == 0x31u128,
        0x12eu128 ^ 0x11du128 == 0x33u128,
        0x130u128 ^ 0x11du128 == 0x2du128,
        0x132u128 ^ 0x11du128 == 0x2fu128,
        0x134u128 ^ 0x11du128 == 0x29u128,
        0x136u128 ^ 0x11du128 == 0x2bu128,
        0x138u128 ^ 0x11du128 == 0x25u128,
        0x13au128 ^ 0x11du128 == 0x27u128,
        0x13cu128 ^ 0x11du128 == 0x21u128,
        0x13eu128 ^ 0x11du128 == 0x23u128,
        0x140u128 ^ 0x11du128 == 0x5du128,
        0x142u128 ^ 0x11du128 == 0x5fu128,
        0x144u128 ^ 0x11du128 == 0x59u128,
        0x146u128 ^ 0x11du128 == 0x5bu128,
        0x148u128 ^ 0x11du128 == 0x55u128,
        0x14au128 ^ 0x11du128 == 0x57u128,
        0x14cu128 ^ 0x11du128 == 0x51u128,
        0x14eu128 ^ 0x11du128 == 0x53u128,
        0x150u128 ^ 0x11du128 == 0x4du128,
        0x152u128 ^ 0x11du128 == 0x4fu128,
        0x154u128 ^ 0x11du128 == 0x49u128,
        0x156u128 ^ 0x11du128 == 0x4bu128,
        0x158u128 ^ 0x11du128 == 0x45u128,
        0x15au128 ^ 0x11du128 == 0x47u128,
        0x15cu128 ^ 0x11du128 == 0x41u128,
        0x15eu128 ^ 0x11du128 == 0x43u128,
        0x160u128 ^ 0x11du128 == 0x7du128,
        0x162u128 ^ 0x11du128 == 0x7fu128,
        0x164u128 ^ 0x11du128 == 0x79u128,
        0x166u128 ^ 0x11du128 == 0x7bu128,
        0x168u128 ^ 0x11du128 == 0x75u128,
        0x16au128 ^ 0x11du128 == 0x77u128,
        0x16cu128 ^ 0x11du128 == 0x71u128,
        0x16eu128 ^ 0x11du128 == 0x73u128,
        0x170u128 ^ 0x11du128 == 0x6du128,
        0x172u128 ^ 0x11du128 == 0x6fu128,
        0x174u128 ^ 0x11du128 == 0x69u128,
        0x176u128 ^ 0x11du128 == 0x6bu128,
        0x178u128 ^ 0x11du128 == 0x65u128,
        0x17au128 ^ 0x11du128 == 0x67u128,
        0x17cu128 ^ 0x11du128 == 0x61u128,
        0x17eu128 ^ 0x11du128 == 0x63u128,
        0x180u128 ^ 0x11du128 == 0x9du128,
        0x182u128 ^ 0x11du128 == 0x9fu128,
        0x184u128 ^ 0x11du128 == 0x99u128,
        0x186u128 ^ 0x11du128 == 0x9bu128,
        0x188u128 ^ 0x11du128 == 0x95u128,
        0x18au128 ^ 0x11du128 == 0x97u128,
        0x18cu128 ^ 0x11du128 == 0x91u128,
        0x18eu128 ^ 0x11du128 == 0x93u128,
        0x190u128 ^ 0x11du128 == 0x8du128,
        0x192u128 ^ 0x11du128 == 0x8fu128,
        0x194u128 ^ 0x11du128 == 0x89u128,
        0x196u128 ^ 0x11du128 == 0x8bu128,
        0x198u128 ^ 0x11du128 == 0x85u128,
        0x19au128 ^ 0x11du128 == 0x87u128,
        0x19cu128 ^ 0x11du128 == 0x81u128,
        0x19eu128 ^ 0x11du128 == 0x83u128,
        0x1a0u128 ^ 0x11du128 == 0xbdu128,
        0x1a2u128 ^ 0x11du128 == 0xbfu128,
        0x1a4u128 ^ 0x11du128 == 0xb9u128,
        0x1a6u128 ^ 0x11du128 == 0xbbu128,
        0x1a8u128 ^ 0x11du128 == 0xb5u128,
        0x1aau128 ^ 0x11du128 == 0xb7u128,
        0x1acu128 ^ 0x11du128 == 0xb1u128,
        0x1aeu128 ^ 0x11du128 == 0xb3u128,
        0x1b0u128 ^ 0x11du128 == 0xadu128,
        0x1b2u128 ^ 0x11du128 == 0xafu128,
        0x1b4u128 ^ 0x11du128 == 0xa9u128,
        0x1b6u128 ^ 0x11du128 == 0xabu128,
        0x1b8u128 ^ 0x11du128 == 0xa5u128,
        0x1bau128 ^ 0x11du128 == 0xa7u128,
        0x1bcu128 ^ 0x11du128 == 0xa1u128,
        0x1beu128 ^ 0x11du128 == 0xa3u128,
        0x1c0u128 ^ 0x11du128 == 0xddu128,
        0x1c2u128 ^ 0x11du128 == 0xdfu128,
        0x1c4u128 ^ 0x11du128 == 0xd9u128,
        0x1c6u128 ^ 0x11du128 == 0xdbu128,
        0x1c8u128 ^ 0x11du128 == 0xd5u128,
        0x1cau128 ^ 0x11du128 == 0xd7u128,
        0x1ccu128 ^ 0x11du128 == 0xd1u128,
        0x1ceu128 ^ 0x11du128 == 0xd3u128,
        0x1d0u128 ^ 0x11du128 == 0xcdu128,
        0x1d2u128 ^ 0x11du128 == 0xcfu128,
        0x1d4u128 ^ 0x11du128 == 0xc9u128,
        0x1d6u128 ^ 0x11du128 == 0xcbu128,
        0x1d8u128 ^ 0x11du128 == 0xc5u128,
        0x1dau128 ^ 0x11du128 == 0xc7u128,
        0x1dcu128 ^ 0x11du128 == 0xc1u128,
        0x1deu128 ^ 0x11du128 == 0xc3u128,
        0x1e0u128 ^ 0x11du128 == 0xfdu128,
        0x1e2u128 ^ 0x11du128 == 0xffu128,
        0x1e4u128 ^ 0x11du128 == 0xf9u128,
        0x1e6u128 ^ 0x11du128 == 0xfbu128,
        0x1e8u128 ^ 0x11du128 == 0xf5u128,
        0x1eau128 ^ 0x11du128 == 0xf7u128,
        0x1ecu128 ^ 0x11du128 == 0xf1u128,
        0x1eeu128 ^ 0x11du128 == 0xf3u128,
        0x1f0u128 ^ 0x11du128 == 0xedu128,
        0x1f2u128 ^ 0x11du128 == 0xefu128,
        0x1f4u128 ^ 0x11du128 == 0xe9u128,
        0x1f6u128 ^ 0x11du128 == 0xebu128,
        0x1f8u128 ^ 0x11du128 == 0xe5u128,
        0x1fau128 ^ 0x11du128 == 0xe7u128,
        0x1fcu128 ^ 0x11du128 == 0xe1u128,
        0x1feu128 ^ 0x11du128 == 0xe3u128,
{
}

/// The powers of the generator of `gf256`.
#[verifier::opaque]
pub open spec fn gf256_gpow(k: nat) -> nat {
    powmod(0x2, k, 0x11d)
}

/// The powers `0x2^1` to `0x2^16` in `gf256`.
#[verifier::rlimit(40)]
proof fn gf256_powers_0()
    ensures
        gf256_gpow(0) == 1,
        gf256_gpow(1) == 0x2,
        gf256_gpow(2) == 0x4,
        gf256_gpow(3) == 0x8,
        gf256_gpow(4) == 0x10,
        gf256_gpow(5) == 0x20,
        gf256_gpow(6) == 0x40,
        gf256_gpow(7) == 0x80,
        gf256_gpow(8) == 0x1d,
        gf256_gpow(9) == 0x3a,
        gf256_gpow(10) == 0x74,
        gf256_gpow(11) == 0xe8,
        gf256_gpow(12) == 0xcd,
        gf256_gpow(13) == 0x87,
        gf256_gpow(14) == 0x13,
        gf256_gpow(15) == 0x26,
        gf256_gpow(16) == 0x4c,
{
    reveal(gf256_gpow);
    gf256_xor_facts();
    assert(bitlen(0x11d) == 9) by {
        reveal_with_fuel(bitlen, 11);
    }
    assert(exp2(8) == 0x100) by {
        reveal_with_fuel(exp2, 10);
    }
    lemma_pmod_one(0x11d, 8);
    assert(powmod(0x2, 0, 0x11d) == 1);
    lemma_mulmod_two(0x1, 0x11d, 8);
    assert(powmod(0x2, 1, 0x11d) == 0x2);
    lemma_mulmod_two(0x2, 0x11d, 8);
    assert(powmod(0x2, 2, 0x11d) == 0x4);
    lemma_mulmod_two(0x4, 0x11d, 8);
    assert(powmod(0x2, 3, 0x11d) == 0x8);
    lemma_mulmod_two(0x8, 0x11d, 8);
    assert(powmod(0x2, 4, 0x11d) == 0x10);
    lemma_mulmod_two(0x10, 0x11d, 8);
    assert(powmod(0x2, 5, 0x11d) == 0x20);
    lemma_mulmod_two(0x20, 0x11d, 8);
    assert(powmod(0x2, 6, 0x11d) == 0x40);
    lemma_mulmod_two(0x40, 0x11d, 8);
    assert(powmod(0x2, 7, 0x11d) == 0x80);
    lemma_mulmod_two(0x80, 0x11d, 8);
    lemma_xor(0x100u128, 0x11du128);
    assert(powmod(0x2, 8, 0x11d) == 0x1d);
    lemma_mulmod_two(0x1d, 0x11d, 8);
    assert(powmod(0x2, 9, 0x11d) == 0x3a);
    lemma_mulmod_two(0x3a, 0x11d, 8);
    assert(powmod(0x2, 10, 0x11d) == 0x74);
    lemma_mulmod_two(0x74, 0x11d, 8);
    assert(powmod(0x2, 11, 0x11d) == 0xe8);
    lemma_mulmod_two(0xe8, 0x11d, 8);
    lemma_xor(0x1d0u128, 0x11du128);
    assert(powmod(0x2, 12, 0x11d) == 0xcd);
    lemma_mulmod_two(0xcd, 0x11d, 8);
    lemma_xor(0x19au128, 0x11du128);
    assert(powmod(0x2, 13, 0x11d) == 0x87);
    lemma_mulmod_two(0x87, 0x11d, 8);
    lemma_xor(0x10eu128, 0x11du128);
    assert(powmod(0x2, 14, 0x11d) == 0x13);
    lemma_mulmod_two(0x13, 0x11d, 8);
    assert(powmod(0x2, 15, 0x11d) == 0x26);
    lemma_mulmod_two(0x26, 0x11d, 8);
    assert(powmod(0x2, 16, 0x11d) == 0x4c);
}

/// The powers `0x2^17` to `0x2^32` in `gf256`.
#[verifier::rlimit(40)]
proof fn gf256_powers_1()
    requires
        gf256_gpow(16) == 0x4c,
    ensures
        gf256_gpow(17) == 0x98,
        gf256_gpow(18) == 0x2d,
        gf256_gpow(19) == 0x5a,
        gf256_gpow(20) == 0xb4,
        gf256_gpow(21) == 0x75,
        gf256_gpow(22) == 0xea,
        gf256_gpow(23) == 0xc9,
        gf256_gpow(24) == 0x8f,
        gf256_gpow(25) == 0x3,
        gf256_gpow(26) == 0x6,
        gf256_gpow(27) == 0xc,
        gf256_gpow(28) == 0x18,
        gf256_gpow(29) == 0x30,
        gf256_gpow(30) == 0x60,
        gf256_gpow(31) == 0xc0,
        gf256_gpow(32) == 0x9d,
{
    reveal(gf256_gpow);
    gf256_xor_facts();
    assert(bitlen(0x11d) == 9) by {
        reveal_with_fuel(bitlen, 11);
    }
    assert(exp2(8) == 0x100) by {
        reveal_with_fuel(exp2, 10);
    }
    lemma_mulmod_two(0x4c, 0x11d, 8);
    assert(powmod(0x2, 17, 0x11d) == 0x98);
    lemma_mulmod_two(0x98, 0x11d, 8);
    lemma_xor(0x130u128, 0x11du128);
    assert(powmod(0x2, 18, 0x11d) == 0x2d);
    lemma_mulmod_two(0x2d, 0x11d, 8);
    assert(powmod(0x2, 19, 0x11d) == 0x5a);
    lemma_mulmod_two(0x5a, 0x11d, 8);
    assert(powmod(0x2, 20, 0x11d) == 0xb4);
    lemma_mulmod_two(0xb4, 0x11d, 8);
    lemma_xor(0x168u128, 0x11du128);
    assert(powmod(0x2, 21, 0x11d) == 0x75);
    lemma_mulmod_two(0x75, 0x11d, 8);
    assert(powmod(0x2, 22, 0x11d) == 0xea);
    lemma_mulmod_two(0xea, 0x11d, 8);
    lemma_xor(0x1d4u128, 0x11du128);
    assert(powmod(0x2, 23, 0x11d) == 0xc9);
    lemma_mulmod_two(0xc9, 0x11d, 8);
    lemma_xor(0x192u128, 0x11du128);
    assert(powmod(0x2, 24, 0x11d) == 0x8f);
    lemma_mulmod_two(0x8f, 0x11d, 8);
    lemma_xor(0x11eu128, 0x11du128);
    assert(powmod(0x2, 25, 0x11d) == 0x3);
    lemma_mulmod_two(0x3, 0x11d, 8);
    assert(powmod(0x2, 26, 0x11d) == 0x6);
    lemma_mulmod_two(0x6, 0x11d, 8);
    assert(powmod(0x2, 27, 0x11d) == 0xc);
    lemma_mulmod_two(0xc, 0x11d, 8);
    assert(powmod(0x2, 28, 0x11d) == 0x18);
    lemma_mulmod_two(0x18, 0x11d, 8);
    assert(powmod(0x2, 29, 0x11d) == 0x30);
    lemma_mulmod_two(0x30, 0x11d, 8);
    assert(powmod(0x2, 30, 0x11d) == 0x60);
    lemma_mulmod_two(0x60, 0x11d, 8);
    assert(powmod(0x2, 31, 0x11d) == 0xc0);
    lemma_mulmod_two(0xc0, 0x11d, 8);
    lemma_xor(0x180u128, 0x11du128);
    assert(powmod(0x2, 32, 0x11d) == 0x9d);
}

/// The powers `0x2^33` to `0x2^48` in `gf256`.
#[verifier::rlimit(40)]
proof fn gf256_powers_2()
    requires
        gf256_gpow(32) == 0x9d,
    ensures
        gf256_gpow(33) == 0x27,
        gf256_gpow(34) == 0x4e,
        gf256_gpow(35) == 0x9c,
        gf256_gpow(36) == 0x25,
        gf256_gpow(37) == 0x4a,
        gf256_gpow(38) == 0x94,
        gf256_gpow(39) == 0x35,
        gf256_gpow(40) == 0x6a,
        gf256_gpow(41) == 0xd4,
        gf256_gpow(42) == 0xb5,
        gf256_gpow(43) == 0x77,
        gf256_gpow(44) == 0xee,
        gf256_gpow(45) == 0xc1,
        gf256_gpow(46) == 0x9f,
        gf256_gpow(47) == 0x23,
        gf256_gpow(48) == 0x46,
{
    reveal(gf256_gpow);
    gf256_xor_facts();
    assert(bitlen(0x11d) == 9) by {
        reveal_with_fuel(bitlen, 11);
    }
    assert(exp2(8) == 0x100) by {
        reveal_with_fuel(exp2, 10);
    }
    lemma_mulmod_two(0x9d, 0x11d, 8);
    lemma_xor(0x13au128, 0x11du128);
    assert(powmod(0x2, 33, 0x11d) == 0x27);
    lemma_mulmod_two(0x27, 0x11d, 8);
    assert(powmod(0x2, 34, 0x11d) == 0x4e);
    lemma_mulmod_two(0x4e, 0x11d, 8);
    assert(powmod(0x2, 35, 0x11d) == 0x9c);
    lemma_mulmod_two(0x9c, 0x11d, 8);
    lemma_xor(0x138u128, 0x11du128);
    assert(powmod(0x2, 36, 0x11d) == 0x25);
    lemma_mulmod_two(0x25, 0x11d, 8);
    assert(powmod(0x2, 37, 0x11d) == 0x4a);
    lemma_mulmod_two(0x4a, 0x11d, 8);
    assert(powmod(0x2, 38, 0x11d) == 0x94);
    lemma_mulmod_two(0x94, 0x11d, 8);
    lemma_xor(0x128u128, 0x11du128);
    assert(powmod(0x2, 39, 0x11d) == 0x35);
    lemma_mulmod_two(0x35, 0x11d, 8);
    assert(powmod(0x2, 40, 0x11d) == 0x6a);
    lemma_mulmod_two(0x6a, 0x11d, 8);
    assert(powmod(0x2, 41, 0x11d) == 0xd4);
    lemma_mulmod_two(0xd4, 0x11d, 8);
    lemma_xor(0x1a8u128, 0x11du128);
    assert(powmod(0x2, 42, 0x11d) == 0xb5);
    lemma_mulmod_two(0xb5, 0x11d, 8);
    lemma_xor(0x16au128, 0x11du128);
    assert(powmod(0x2, 43, 0x11d) == 0x77);
    lemma_mulmod_two(0x77, 0x11d, 8);
    assert(powmod(0x2, 44, 0x11d) == 0xee);
    lemma_mulmod_two(0xee, 0x11d, 8);
    lemma_xor(0x1dcu128, 0x11du128);
    assert(powmod(0x2, 45, 0x11d) == 0xc1);
    lemma_mulmod_two(0xc1, 0x11d, 8);
    lemma_xor(0x182u128, 0x11du128);
    assert(powmod(0x2, 46, 0x11d) == 0x9f);
    lemma_mulmod_two(0x9f, 0x11d, 8);
    lemma_xor(0x13eu128, 0x11du128);
    assert(powmod(0x2, 47, 0x11d) == 0x23);
    lemma_mulmod_two(0x23, 0x11d, 8);
    assert(powmod(0x2, 48, 0x11d) == 0x46);
}

/// The powers `0x2^49` to `0x2^64` in `gf256`.
#[verifier::rlimit(40)]
proof fn gf256_powers_3()
    requires
        gf256_gpow(48) == 0x46,
    ensures
        gf256_gpow(49) == 0x8c,
        gf256_gpow(50) == 0x5,
        gf256_gpow(51) == 0xa,
        gf256_gpow(52) == 0x14,
        gf256_gpow(53) == 0x28,
        gf256_gpow(54) == 0x50,
        gf256_gpow(55) == 0xa0,
        gf256_gpow(56) == 0x5d,
        gf256_gpow(57) == 0xba,
        gf256_gpow(58) == 0x69,
        gf256_gpow(59) == 0xd2,
        gf256_gpow(60) == 0xb9,
        gf256_gpow(61) == 0x6f,
        gf256_gpow(62) == 0xde,
        gf256_gpow(63) == 0xa1,
        gf256_gpow(64) == 0x5f,
{
    reveal(gf256_gpow);
    gf256_xor_facts();
    assert(bitlen(0x11d) == 9) by {
        reveal_with_fuel(bitlen, 11);
    }
    assert(exp2(8) == 0x100) by {
        reveal_with_fuel(exp2, 10);
    }
    lemma_mulmod_two(0x46, 0x11d, 8);
    assert(powmod(0x2, 49, 0x11d) == 0x8c);
    lemma_mulmod_two(0x8c, 0x11d, 8);
    lemma_xor(0x118u128, 0x11du128);
    assert(powmod(0x2, 50, 0x11d) == 0x5);
    lemma_mulmod_two(0x5, 0x11d, 8);
    assert(powmod(0x2, 51, 0x11d) == 0xa);
    lemma_mulmod_two(0xa, 0x11d, 8);
    assert(powmod(0x2, 52, 0x11d) == 0x14);
    lemma_mulmod_two(0x14, 0x11d, 8);
    assert(powmod(0x2, 53, 0x11d) == 0x28);
    lemma_mulmod_two(0x28, 0x11d, 8);
    assert(powmod(0x2, 54, 0x11d) == 0x50);
    lemma_mulmod_two(0x50, 0x11d, 8);
    assert(powmod(0x2, 55, 0x11d) == 0xa0);
    lemma_mulmod_two(0xa0, 0x11d, 8);
    lemma_xor(0x140u128, 0x11du128);
    assert(powmod(0x2, 56, 0x11d) == 0x5d);
    lemma_mulmod_two(0x5d, 0x11d, 8);
    assert(powmod(0x2, 57, 0x11d) == 0xba);
    lemma_mulmod_two(0xba, 0x11d, 8);
    lemma_xor(0x174u128, 0x11du128);
    assert(powmod(0x2, 58, 0x11d) == 0x69);
    lemma_mulmod_two(0x69, 0x11d, 8);
    assert(powmod(0x2, 59, 0x11d) == 0xd2);
    lemma_mulmod_two(0xd2, 0x11d, 8);
    lemma_xor(0x1a4u128, 0x11du128);
    assert(powmod(0x2, 60, 0x11d) == 0xb9);
    lemma_mulmod_two(0xb9, 0x11d, 8);
    lemma_xor(0x172u128, 0x11du128);
    assert(powmod(0x2, 61, 0x11d) == 0x6f);
    lemma_mulmod_two(0x6f, 0x11d, 8);
    assert(powmod(0x2, 62, 0x11d) == 0xde);
    lemma_mulmod_two(0xde, 0x11d, 8);
    lemma_xor(0x1bcu128, 0x11du128);
    assert(powmod(0x2, 63, 0x11d) == 0xa1);
    lemma_mulmod_two(0xa1, 0x11d, 8);
    lemma_xor(0x142u128, 0x11du128);
    assert(powmod(0x2, 64, 0x11d) == 0x5f);
}

/// The powers `0x2^65` to `0x2^80` in `gf256`.
#[verifier::rlimit(40)]
proof fn gf256_powers_4()
    requires
        gf256_gpow(64) == 0x5f,
    ensures
        gf256_gpow(65) == 0xbe,
        gf256_gpow(66) == 0x61,
        gf256_gpow(67) == 0xc2,
        gf256_gpow(68) == 0x99,
        gf256_gpow(69) == 0x2f,
        gf256_gpow(70) == 0x5e,
        gf256_gpow(71) == 0xbc,
        gf256_gpow(72) == 0x65,
        gf256_gpow(73) == 0xca,
        gf256_gpow(74) == 0x89,
        gf256_gpow(75) == 0xf,
        gf256_gpow(76) == 0x1e,
        gf256_gpow(77) == 0x3c,
        gf256_gpow(78) == 0x78,
        gf256_gpow(79) == 0xf0,
        gf256_gpow(80) == 0xfd,
{
    reveal(gf256_gpow);
    gf256_xor_facts();
    assert(bitlen(0x11d) == 9) by {
        reveal_with_fuel(bitlen, 11);
    }
    assert(exp2(8) == 0x100) by {
        reveal_with_fuel(exp2, 10);
    }
    lemma_mulmod_two(0x5f, 0x11d, 8);
    assert(powmod(0x2, 65, 0x11d) == 0xbe);
    lemma_mulmod_two(0xbe, 0x11d, 8);
    lemma_xor(0x17cu128, 0x11du128);
    assert(powmod(0x2, 66, 0x11d) == 0x61);
    lemma_mulmod_two(0x61, 0x11d, 8);
    assert(powmod(0x2, 67, 0x11d) == 0xc2);
    lemma_mulmod_two(0xc2, 0x11d, 8);
    lemma_xor(0x184u128, 0x11du128);
    assert(powmod(0x2, 68, 0x11d) == 0x99);
    lemma_mulmod_two(0x99, 0x11d, 8);
    lemma_xor(0x132u128, 0x11du128);
    assert(powmod(0x2, 69, 0x11d) == 0x2f);
    lemma_mulmod_two(0x2f, 0x11d, 8);
    assert(powmod(0x2, 70, 0x11d) == 0x5e);
    lemma_mulmod_two(0x5e, 0x11d, 8);
    assert(powmod(0x2, 71, 0x11d) == 0xbc);
    lemma_mulmod_two(0xbc, 0x11d, 8);
    lemma_xor(0x178u128, 0x11du128);
    assert(powmod(0x2, 72, 0x11d) == 0x65);
    lemma_mulmod_two(0x65, 0x11d, 8);
    assert(powmod(0x2, 73, 0x11d) == 0xca);
    lemma_mulmod_two(0xca, 0x11d, 8);
    lemma_xor(0x194u128, 0x11du128);
    assert(powmod(0x2, 74, 0x11d) == 0x89);
    lemma_mulmod_two(0x89, 0x11d, 8);
    lemma_xor(0x112u128, 0x11du128);
    assert(powmod(0x2, 75, 0x11d) == 0xf);
    lemma_mulmod_two(0xf, 0x11d, 8);
    assert(powmod(0x2, 76, 0x11d) == 0x1e);
    lemma_mulmod_two(0x1e, 0x11d, 8);
    assert(powmod(0x2, 77, 0x11d) == 0x3c);
    lemma_mulmod_two(0x3c, 0x11d, 8);
    assert(powmod(0x2, 78, 0x11d) == 0x78);
    lemma_mulmod_two(0x78, 0x11d, 8);
    assert(powmod(0x2, 79, 0x11d) == 0xf0);
    lemma_mulmod_two(0xf0, 0x11d, 8);
    lemma_xor(0x1e0u128, 0x11du128);
    assert(powmod(0x2, 80, 0x11d) == 0xfd);
}

/// The powers `0x2^81` to `0x2^96` in `gf256`.
#[verifier::rlimit(40)]
proof fn gf256_powers_5()
    requires
        gf256_gpow(80) == 0xfd,
    ensures
        gf256_gpow(81) == 0xe7,
        gf256_gpow(82) == 0xd3,
        gf256_gpow(83) == 0xbb,
        gf256_gpow(84) == 0x6b,
        gf256_gpow(85) == 0xd6,
        gf256_gpow(86) == 0xb1,
        gf256_gpow(87) == 0x7f,
        gf256_gpow(88) == 0xfe,
        gf256_gpow(89) == 0xe1,
        gf256_gpow(90) == 0xdf,
        gf256_gpow(91) == 0xa3,
        gf256_gpow(92) == 0x5b,
        gf256_gpow(93) == 0xb6,
        gf256_gpow(94) == 0x71,
        gf256_gpow(95) == 0xe2,
        gf256_gpow(96) == 0xd9,
{
    reveal(gf256_gpow);
    gf256_xor_facts();
    assert(bitlen(0x11d) == 9) by {
        reveal_with_fuel(bitlen, 11);
    }
    assert(exp2(8) == 0x100) by {
        reveal_with_fuel(exp2, 10);
    }
    lemma_mulmod_two(0xfd, 0x11d, 8);
    lemma_xor(0x1fau128, 0x11du128);
    assert(powmod(0x2, 81, 0x11d) == 0xe7);
    lemma_mulmod_two(0xe7, 0x11d, 8);
    lemma_xor(0x1ceu128, 0x11du128);
    assert(powmod(0x2, 82, 0x11d) == 0xd3);
    lemma_mulmod_two(0xd3, 0x11d, 8);
    lemma_xor(0x1a6u128, 0x11du128);
    assert(powmod(0x2, 83, 0x11d) == 0xbb);
    lemma_mulmod_two(0xbb, 0x11d, 8);
    lemma_xor(0x176u128, 0x11du128);
    assert(powmod(0x2, 84, 0x11d) == 0x6b);
    lemma_mulmod_two(0x6b, 0x11d, 8);
    assert(powmod(0x2, 85, 0x11d) == 0xd6);
    lemma_mulmod_two(0xd6, 0x11d, 8);
    lemma_xor(0x1acu128, 0x11du128);
    assert(powmod(0x2, 86, 0x11d) == 0xb1);
    lemma_mulmod_two(0xb1, 0x11d, 8);
    lemma_xor(0x162u128, 0x11du128);
    assert(powmod(0x2, 87, 0x11d) == 0x7f);
    lemma_mulmod_two(0x7f, 0x11d, 8);
    assert(powmod(0x2, 88, 0x11d) == 0xfe);
    lemma_mulmod_two(0xfe, 0x11d, 8);
    lemma_xor(0x1fcu128, 0x11du128);
    assert(powmod(0x2, 89, 0x11d) == 0xe1);
    lemma_mulmod_two(0xe1, 0x11d, 8);
    lemma_xor(0x1c2u128, 0x11du128);
    assert(powmod(0x2, 90, 0x11d) == 0xdf);
    lemma_mulmod_two(0xdf, 0x11d, 8);
    lemma_xor(0x1beu128, 0x11du128);
    assert(powmod(0x2, 91, 0x11d) == 0xa3);
    lemma_mulmod_two(0xa3, 0x11d, 8);
    lemma_xor(0x146u128, 0x11du128);
    assert(powmod(0x2, 92, 0x11d) == 0x5b);
    lemma_mulmod_two(0x5b, 0x11d, 8);
    assert(powmod(0x2, 93, 0x11d) == 0xb6);
    lemma_mulmod_two(0xb6, 0x11d, 8);
    lemma_xor(0x16cu128, 0x11du128);
    assert(powmod(0x2, 94, 0x11d) == 0x71);
    lemma_mulmod_two(0x71, 0x11d, 8);
    assert(powmod(0x2, 95, 0x11d) == 0xe2);
    lemma_mulmod_two(0xe2, 0x11d, 8);
    lemma_xor(0x1c4u128, 0x11du128);
    assert(powmod(0x2, 96, 0x11d) == 0xd9);
}

/// The powers `0x2^97` to `0x2^112` in `gf256`.
#[verifier::rlimit(40)]
proof fn gf256_powers_6()
    requires
        gf256_gpow(96) == 0xd9,
    ensures
        gf256_gpow(97) == 0xaf,
        gf256_gpow(98) == 0x43,
        gf256_gpow(99) == 0x86,
        gf256_gpow(100) == 0x11,
        gf256_gpow(101) == 0x22,
        gf256_gpow(102) == 0x44,
        gf256_gpow(103) == 0x88,
        gf256_gpow(104) == 0xd,
        gf256_gpow(105) == 0x1a,
        gf256_gpow(106) == 0x34,
        gf256_gpow(107) == 0x68,
        gf256_gpow(108) == 0xd0,
        gf256_gpow(109) == 0xbd,
        gf256_gpow(110) == 0x67,
        gf256_gpow(111) == 0xce,
        gf256_gpow(112) == 0x81,
{
    reveal(gf256_gpow);
    gf256_xor_facts();
    assert(bitlen(0x11d) == 9) by {
        reveal_with_fuel(bitlen, 11);
    }
    assert(exp2(8) == 0x100) by {
        reveal_with_fuel(exp2, 10);
    }
    lemma_mulmod_two(0xd9, 0x11d, 8);
    lemma_xor(0x1b2u128, 0x11du128);
    assert(powmod(0x2, 97, 0x11d) == 0xaf);
    lemma_mulmod_two(0xaf, 0x11d, 8);
    lemma_xor(0x15eu128, 0x11du128);
    assert(powmod(0x2, 98, 0x11d) == 0x43);
    lemma_mulmod_two(0x43, 0x11d, 8);
    assert(powmod(0x2, 99, 0x11d) == 0x86);
    lemma_mulmod_two(0x86, 0x11d, 8);
    lemma_xor(0x10cu128, 0x11du128);
    assert(powmod(0x2, 100, 0x11d) == 0x11);
    lemma_mulmod_two(0x11, 0x11d, 8);
    assert(powmod(0x2, 101, 0x11d) == 0x22);
    lemma_mulmod_two(0x22, 0x11d, 8);
    assert(powmod(0x2, 102, 0x11d) == 0x44);
    lemma_mulmod_two(0x44, 0x11d, 8);
    assert(powmod(0x2, 103, 0x11d) == 0x88);
    lemma_mulmod_two(0x88, 0x11d, 8);
    lemma_xor(0x110u128, 0x11du128);
    assert(powmod(0x2, 104, 0x11d) == 0xd);
    lemma_mulmod_two(0xd, 0x11d, 8);
    assert(powmod(0x2, 105, 0x11d) == 0x1a);
    lemma_mulmod_two(0x1a, 0x11d, 8);
    assert(powmod(0x2, 106, 0x11d) == 0x34);
    lemma_mulmod_two(0x34, 0x11d, 8);
    assert(powmod(0x2, 107, 0x11d) == 0x68);
    lemma_mulmod_two(0x68, 0x11d, 8);
    assert(powmod(0x2, 108, 0x11d) == 0xd0);
    lemma_mulmod_two(0xd0, 0x11d, 8);
    lemma_xor(0x1a0u128, 0x11du128);
    assert(powmod(0x2, 109, 0x11d) == 0xbd);
    lemma_mulmod_two(0xbd, 0x11d, 8);
    lemma_xor(0x17au128, 0x11du128);
    assert(powmod(0x2, 110, 0x11d) == 0x67);
    lemma_mulmod_two(0x67, 0x11d, 8);
    assert(powmod(0x2, 111, 0x11d) == 0xce);
    lemma_mulmod_two(0xce, 0x11d, 8);
    lemma_xor(0x19cu128, 0x11du128);
    assert(powmod(0x2, 112, 0x11d) == 0x81);
}

/// The powers `0x2^113` to `0x2^128` in `gf256`.
#[verifier::rlimit(40)]
proof fn gf256_powers_7()
    requires
        gf256_gpow(112) == 0x81,
    ensures
        gf256_gpow(113) == 0x1f,
        gf256_gpow(114) == 0x3e,
        gf256_gpow(115) == 0x7c,
        gf256_gpow(116) == 0xf8,
        gf256_gpow(117) == 0xed,
        gf256_gpow(118) == 0xc7,
        gf256_gpow(119) == 0x93,
        gf256_gpow(120) == 0x3b,
        gf256_gpow(121) == 0x76,
        gf256_gpow(122) == 0xec,
        gf256_gpow(123) == 0xc5,
        gf256_gpow(124) == 0x97,
        gf256_gpow(125) == 0x33,
        gf256_gpow(126) == 0x66,
        gf256_gpow(127) == 0xcc,
        gf256_gpow(128) == 0x85,
{
    reveal(gf256_gpow);
    gf256_xor_facts();
    assert(bitlen(0x11d) == 9) by {
        reveal_with_fuel(bitlen, 11);
    }
    assert(exp2(8) == 0x100) by {
        reveal_with_fuel(exp2, 10);
    }
    lemma_mulmod_two(0x81, 0x11d, 8);
    lemma_xor(0x102u128, 0x11du128);
    assert(powmod(0x2, 113, 0x11d) == 0x1f);
    lemma_mulmod_two(0x1f, 0x11d, 8);
    assert(powmod(0x2, 114, 0x11d) == 0x3e);
    lemma_mulmod_two(0x3e, 0x11d, 8);
    assert(powmod(0x2, 115, 0x11d) == 0x7c);
    lemma_mulmod_two(0x7c, 0x11d, 8);
    assert(powmod(0x2, 116, 0x11d) == 0xf8);
    lemma_mulmod_two(0xf8, 0x11d, 8);
    lemma_xor(0x1f0u128, 0x11du128);
    assert(powmod(0x2, 117, 0x11d) == 0xed);
    lemma_mulmod_two(0xed, 0x11d, 8);
    lemma_xor(0x1dau128, 0x11du128);
    assert(powmod(0x2, 118, 0x11d) == 0xc7);
    lemma_mulmod_two(0xc7, 0x11d, 8);
    lemma_xor(0x18eu128, 0x11du128);
    assert(powmod(0x2, 119, 0x11d) == 0x93);
    lemma_mulmod_two(0x93, 0x11d, 8);
    lemma_xor(0x126u128, 0x11du128);
    assert(powmod(0x2, 120, 0x11d) == 0x3b);
    lemma_mulmod_two(0x3b, 0x11d, 8);
    assert(powmod(0x2, 121, 0x11d) == 0x76);
    lemma_mulmod_two(0x76, 0x11d, 8);
    assert(powmod(0x2, 122, 0x11d) == 0xec);
    lemma_mulmod_two(0xec, 0x11d, 8);
    lemma_xor(0x1d8u128, 0x11du128);
    assert(powmod(0x2, 123, 0x11d) == 0xc5);
    lemma_mulmod_two(0xc5, 0x11d, 8);
    lemma_xor(0x18au128, 0x11du128);
    assert(powmod(0x2, 124, 0x11d) == 0x97);
    lemma_mulmod_two(0x97, 0x11d, 8);
    lemma_xor(0x12eu128, 0x11du128);
    assert(powmod(0x2, 125, 0x11d) == 0x33);
    lemma_mulmod_two(0x33, 0x11d, 8);
    assert(powmod(0x2, 126, 0x11d) == 0x66);
    lemma_mulmod_two(0x66, 0x11d, 8);
    assert(powmod(0x2, 127, 0x11d) == 0xcc);
    lemma_mulmod_two(0xcc, 0x11d, 8);
    lemma_xor(0x198u128, 0x11du128);
    assert(powmod(0x2, 128, 0x11d) == 0x85);
}

/// The powers `0x2^129` to `0x2^144` in `gf256`.
#[verifier::rlimit(40)]
proof fn gf256_powers_8()
    requires
        gf256_gpow(128) == 0x85,
    ensures
        gf256_gpow(129) == 0x17,
        gf256_gpow(130) == 0x2e,
        gf256_gpow(131) == 0x5c,
        gf256_gpow(132) == 0xb8,
        gf256_gpow(133) == 0x6d,
        gf256_gpow(134) == 0xda,
        gf256_gpow(135) == 0xa9,
        gf256_gpow(136) == 0x4f,
        gf256_gpow(137) == 0x9e,
        gf256_gpow(138) == 0x21,
        gf256_gpow(139) == 0x42,
        gf256_gpow(140) == 0x84,
        gf256_gpow(141) == 0x15,
        gf256_gpow(142) == 0x2a,
        gf256_gpow(143) == 0x54,
        gf256_gpow(144) == 0xa8,
{
    reveal(gf256_gpow);
    gf256_xor_facts();
    assert(bitlen(0x11d) == 9) by {
        reveal_with_fuel(bitlen, 11);
    }
    assert(exp2(8) == 0x100) by {
        reveal_with_fuel(exp2, 10);
    }
    lemma_mulmod_two(0x85, 0x11d, 8);
    lemma_xor(0x10au128, 0x11du128);
    assert(powmod(0x2, 129, 0x11d) == 0x17);
    lemma_mulmod_two(0x17, 0x11d, 8);
    assert(powmod(0x2, 130, 0x11d) == 0x2e);
    lemma_mulmod_two(0x2e, 0x11d, 8);
    assert(powmod(0x2, 131, 0x11d) == 0x5c);
    lemma_mulmod_two(0x5c, 0x11d, 8);
    assert(powmod(0x2, 132, 0x11d) == 0xb8);
    lemma_mulmod_two(0xb8, 0x11d, 8);
    lemma_xor(0x170u128, 0x11du128);
    assert(powmod(0x2, 133, 0x11d) == 0x6d);
    lemma_mulmod_two(0x6d, 0x11d, 8);
    assert(powmod(0x2, 134, 0x11d) == 0xda);
    lemma_mulmod_two(0xda, 0x11d, 8);
    lemma_xor(0x1b4u128, 0x11du128);
    assert(powmod(0x2, 135, 0x11d) == 0xa9);
    lemma_mulmod_two(0xa9, 0x11d, 8);
    lemma_xor(0x152u128, 0x11du128);
    assert(powmod(0x2, 136, 0x11d) == 0x4f);
    lemma_mulmod_two(0x4f, 0x11d, 8);
    assert(powmod(0x2, 137, 0x11d) == 0x9e);
    lemma_mulmod_two(0x9e, 0x11d, 8);
    lemma_xor(0x13cu128, 0x11du128);
    assert(powmod(0x2, 138, 0x11d) == 0x21);
    lemma_mulmod_two(0x21, 0x11d, 8);
    assert(powmod(0x2, 139, 0x11d) == 0x42);
    lemma_mulmod_two(0x42, 0x11d, 8);
    assert(powmod(0x2, 140, 0x11d) == 0x84);
    lemma_mulmod_two(0x84, 0x11d, 8);
    lemma_xor(0x108u128, 0x11du128);
    assert(powmod(0x2, 141, 0x11d) == 0x15);
    lemma_mulmod_two(0x15, 0x11d, 8);
    assert(powmod(0x2, 142, 0x11d) == 0x2a);
    lemma_mulmod_two(0x2a, 0x11d, 8);
    assert(powmod(0x2, 143, 0x11d) == 0x54);
    lemma_mulmod_two(0x54, 0x11d, 8);
    assert(powmod(0x2, 144, 0x11d) == 0xa8);
}

/// The powers `0x2^145` to `0x2^160` in `gf256`.
#[verifier::rlimit(40)]
proof fn gf256_powers_9()
    requires
        gf256_gpow(144) == 0xa8,
    ensures
        gf256_gpow(145) == 0x4d,
        gf256_gpow(146) == 0x9a,
        gf256_gpow(147) == 0x29,
        gf256_gpow(148) == 0x52,
        gf256_gpow(149) == 0xa4,
        gf256_gpow(150) == 0x55,
        gf256_gpow(151) == 0xaa,
        gf256_gpow(152) == 0x49,
        gf256_gpow(153) == 0x92,
        gf256_gpow(154) == 0x39,
        gf256_gpow(155) == 0x72,
        gf256_gpow(156) == 0xe4,
        gf256_gpow(157) == 0xd5,
        gf256_gpow(158) == 0xb7,
        gf256_gpow(159) == 0x73,
        gf256_gpow(160) == 0xe6,
{
    reveal(gf256_gpow);
    gf256_xor_facts();
    assert(bitlen(0x11d) == 9) by {
        reveal_with_fuel(bitlen, 11);
    }
    assert(exp2(8) == 0x100) by {
        reveal_with_fuel(exp2, 10);
    }
    lemma_mulmod_two(0xa8, 0x11d, 8);
    lemma_xor(0x150u128, 0x11du128);
    assert(powmod(0x2, 145, 0x11d) == 0x4d);
    lemma_mulmod_two(0x4d, 0x11d, 8);
    assert(powmod(0x2, 146, 0x11d) == 0x9a);
    lemma_mulmod_two(0x9a, 0x11d, 8);
    lemma_xor(0x134u128, 0x11du128);
    assert(powmod(0x2, 147, 0x11d) == 0x29);
    lemma_mulmod_two(0x29, 0x11d, 8);
    assert(powmod(0x2, 148, 0x11d) == 0x52);
    lemma_mulmod_two(0x52, 0x11d, 8);
    assert(powmod(0x2, 149, 0x11d) == 0xa4);
    lemma_mulmod_two(0xa4, 0x11d, 8);
    lemma_xor(0x148u128, 0x11du128);
    assert(powmod(0x2, 150, 0x11d) == 0x55);
    lemma_mulmod_two(0x55, 0x11d, 8);
    assert(powmod(0x2, 151, 0x11d) == 0xaa);
    lemma_mulmod_two(0xaa, 0x11d, 8);
    lemma_xor(0x154u128, 0x11du128);
    assert(powmod(0x2, 152, 0x11d) == 0x49);
    lemma_mulmod_two(0x49, 0x11d, 8);
    assert(powmod(0x2, 153, 0x11d) == 0x92);
    lemma_mulmod_two(0x92, 0x11d, 8);
    lemma_xor(0x124u128, 0x11du128);
    assert(powmod(0x2, 154, 0x11d) == 0x39);
    lemma_mulmod_two(0x39, 0x11d, 8);
    assert(powmod(0x2, 155, 0x11d) == 0x72);
    lemma_mulmod_two(0x72, 0x11d, 8);
    assert(powmod(0x2, 156, 0x11d) == 0xe4);
    lemma_mulmod_two(0xe4, 0x11d, 8);
    lemma_xor(0x1c8u128, 0x11du128);
    assert(powmod(0x2, 157, 0x11d) == 0xd5);
    lemma_mulmod_two(0xd5, 0x11d, 8);
    lemma_xor(0x1aau128, 0x11du128);
    assert(powmod(0x2, 158, 0x11d) == 0xb7);
    lemma_mulmod_two(0xb7, 0x11d, 8);
    lemma_xor(0x16eu128, 0x11du128);
    assert(powmod(0x2, 159, 0x11d) == 0x73);
    lemma_mulmod_two(0x73, 0x11d, 8);
    assert(powmod(0x2, 160, 0x11d) == 0xe6);
}

/// The powers `0x2^161` to `0x2^176` in `gf256`.
#[verifier::rlimit(40)]
proof fn gf256_powers_10()
    requires
        gf256_gpow(160) == 0xe6,
    ensures
        gf256_gpow(161) == 0xd1,
        gf256_gpow(162) == 0xbf,
        gf256_gpow(163) == 0x63,
        gf256_gpow(164) == 0xc6,
        gf256_gpow(165) == 0x91,
        gf256_gpow(166) == 0x3f,
        gf256_gpow(167) == 0x7e,
        gf256_gpow(168) == 0xfc,
        gf256_gpow(169) == 0xe5,
        gf256_gpow(170) == 0xd7,
        gf256_gpow(171) == 0xb3,
        gf256_gpow(172) == 0x7b,
        gf256_gpow(173) == 0xf6,
        gf256_gpow(174) == 0xf1,
        gf256_gpow(175) == 0xff,
        gf256_gpow(176) == 0xe3,
{
    reveal(gf256_gpow);
    gf256_xor_facts();
    assert(bitlen(0x11d) == 9) by {
        reveal_with_fuel(bitlen, 11);
    }
    assert(exp2(8) == 0x100) by {
        reveal_with_fuel(exp2, 10);
    }
    lemma_mulmod_two(0xe6, 0x11d, 8);
    lemma_xor(0x1ccu128, 0x11du128);
    assert(powmod(0x2, 161, 0x11d) == 0xd1);
    lemma_mulmod_two(0xd1, 0x11d, 8);
    lemma_xor(0x1a2u128, 0x11du128);
    assert(powmod(0x2, 162, 0x11d) == 0xbf);
    lemma_mulmod_two(0xbf, 0x11d, 8);
    lemma_xor(0x17eu128, 0x11du128);
    assert(powmod(0x2, 163, 0x11d) == 0x63);
    lemma_mulmod_two(0x63, 0x11d, 8);
    assert(powmod(0x2, 164, 0x11d) == 0xc6);
    lemma_mulmod_two(0xc6, 0x11d, 8);
    lemma_xor(0x18cu128, 0x11du128);
    assert(powmod(0x2, 165, 0x11d) == 0x91);
    lemma_mulmod_two(0x91, 0x11d, 8);
    lemma_xor(0x122u128, 0x11du128);
    assert(powmod(0x2, 166, 0x11d) == 0x3f);
    lemma_mulmod_two(0x3f, 0x11d, 8);
    assert(powmod(0x2, 167, 0x11d) == 0x7e);
    lemma_mulmod_two(0x7e, 0x11d, 8);
    assert(powmod(0x2, 168, 0x11d) == 0xfc);
    lemma_mulmod_two(0xfc, 0x11d, 8);
    lemma_xor(0x1f8u128, 0x11du128);
    assert(powmod(0x2, 169, 0x11d) == 0xe5);
    lemma_mulmod_two(0xe5, 0x11d, 8);
    lemma_xor(0x1cau128, 0x11du128);
    assert(powmod(0x2, 170, 0x11d) == 0xd7);
    lemma_mulmod_two(0xd7, 0x11d, 8);
    lemma_xor(0x1aeu128, 0x11du128);
    assert(powmod(0x2, 171, 0x11d) == 0xb3);
    lemma_mulmod_two(0xb3, 0x11d, 8);
    lemma_xor(0x166u128, 0x11du128);
    assert(powmod(0x2, 172, 0x11d) == 0x7b);
    lemma_mulmod_two(0x7b, 0x11d, 8);
    assert(powmod(0x2, 173, 0x11d) == 0xf6);
    lemma_mulmod_two(0xf6, 0x11d, 8);
    lemma_xor(0x1ecu128, 0x11du128);
    assert(powmod(0x2, 174, 0x11d) == 0xf1);
    lemma_mulmod_two(0xf1, 0x11d, 8);
    lemma_xor(0x1e2u128, 0x11du128);
    assert(powmod(0x2, 175, 0x11d) == 0xff);
    lemma_mulmod_two(0xff, 0x11d, 8);
    lemma_xor(0x1feu128, 0x11du128);
    assert(powmod(0x2, 176, 0x11d) == 0xe3);
}

/// The powers `0x2^177` to `0x2^192` in `gf256`.
#[verifier::rlimit(40)]
proof fn gf256_powers_11()
    requires
        gf256_gpow(176) == 0xe3,
    ensures
        gf256_gpow(177) == 0xdb,
        gf256_gpow(178) == 0xab,
        gf256_gpow(179) == 0x4b,
        gf256_gpow(180) == 0x96,
        gf256_gpow(181) == 0x31,
        gf256_gpow(182) == 0x62,
        gf256_gpow(183) == 0xc4,
        gf256_gpow(184) == 0x95,
        gf256_gpow(185) == 0x37,
        gf256_gpow(186) == 0x6e,
        gf256_gpow(187) == 0xdc,
        gf256_gpow(188) == 0xa5,
        gf256_gpow(189) == 0x57,
        gf256_gpow(190) == 0xae,
        gf256_gpow(191) == 0x41,
        gf256_gpow(192) == 0x82,
{
    reveal(gf256_gpow);
    gf256_xor_facts();
    assert(bitlen(0x11d) == 9) by {
        reveal_with_fuel(bitlen, 11);
    }
    assert(exp2(8) == 0x100) by {
        reveal_with_fuel(exp2, 10);
    }
    lemma_mulmod_two(0xe3, 0x11d, 8);
    lemma_xor(0x1c6u128, 0x11du128);
    assert(powmod(0x2, 177, 0x11d) == 0xdb);
    lemma_mulmod_two(0xdb, 0x11d, 8);
    lemma_xor(0x1b6u128, 0x11du128);
    assert(powmod(0x2, 178, 0x11d) == 0xab);
    lemma_mulmod_two(0xab, 0x11d, 8);
    lemma_xor(0x156u128, 0x11du128);
    assert(powmod(0x2, 179, 0x11d) == 0x4b);
    lemma_mulmod_two(0x4b, 0x11d, 8);
    assert(powmod(0x2, 180, 0x11d) == 0x96);
    lemma_mulmod_two(0x96, 0x11d, 8);
    lemma_xor(0x12cu128, 0x11du128);
    assert(powmod(0x2, 181, 0x11d) == 0x31);
    lemma_mulmod_two(0x31, 0x11d, 8);
    assert(powmod(0x2, 182, 0x11d) == 0x62);
    lemma_mulmod_two(0x62, 0x11d, 8);
    assert(powmod(0x2, 183, 0x11d) == 0xc4);
    lemma_mulmod_two(0xc4, 0x11d, 8);
    lemma_xor(0x188u128, 0x11du128);
    assert(powmod(0x2, 184, 0x11d) == 0x95);
    lemma_mulmod_two(0x95, 0x11d, 8);
    lemma_xor(0x12au128, 0x11du128);
    assert(powmod(0x2, 185, 0x11d) == 0x37);
    lemma_mulmod_two(0x37, 0x11d, 8);
    assert(powmod(0x2, 186, 0x11d) == 0x6e);
    lemma_mulmod_two(0x6e, 0x11d, 8);
    assert(powmod(0x2, 187, 0x11d) == 0xdc);
    lemma_mulmod_two(0xdc, 0x11d, 8);
    lemma_xor(0x1b8u128, 0x11du128);
    assert(powmod(0x2, 188, 0x11d) == 0xa5);
    lemma_mulmod_two(0xa5, 0x11d, 8);
    lemma_xor(0x14au128, 0x11du128);
    assert(powmod(0x2, 189, 0x11d) == 0x57);
    lemma_mulmod_two(0x57, 0x11d, 8);
    assert(powmod(0x2, 190, 0x11d) == 0xae);
    lemma_mulmod_two(0xae, 0x11d, 8);
    lemma_xor(0x15cu128, 0x11du128);
    assert(powmod(0x2, 191, 0x11d) == 0x41);
    lemma_mulmod_two(0x41, 0x11d, 8);
    assert(powmod(0x2, 192, 0x11d) == 0x82);
}

/// The powers `0x2^193` to `0x2^208` in `gf256`.
#[verifier::rlimit(40)]
proof fn gf256_powers_12()
    requires
        gf256_gpow(192) == 0x82,
    ensures
        gf256_gpow(193) == 0x19,
        gf256_gpow(194) == 0x32,
        gf256_gpow(195) == 0x64,
        gf256_gpow(196) == 0xc8,
        gf256_gpow(197) == 0x8d,
        gf256_gpow(198) == 0x7,
        gf256_gpow(199) == 0xe,
        gf256_gpow(200) == 0x1c,
        gf256_gpow(201) == 0x38,
        gf256_gpow(202) == 0x70,
        gf256_gpow(203) == 0xe0,
        gf256_gpow(204) == 0xdd,
        gf256_gpow(205) == 0xa7,
        gf256_gpow(206) == 0x53,
        gf256_gpow(207) == 0xa6,
        gf256_gpow(208) == 0x51,
{
    reveal(gf256_gpow);
    gf256_xor_facts();
    assert(bitlen(0x11d) == 9) by {
        reveal_with_fuel(bitlen, 11);
    }
    assert(exp2(8) == 0x100) by {
        reveal_with_fuel(exp2, 10);
    }
    lemma_mulmod_two(0x82, 0x11d, 8);
    lemma_xor(0x104u128, 0x11du128);
    assert(powmod(0x2, 193, 0x11d) == 0x19);
    lemma_mulmod_two(0x19, 0x11d, 8);
    assert(powmod(0x2, 194, 0x11d) == 0x32);
    lemma_mulmod_two(0x32, 0x11d, 8);
    assert(powmod(0x2, 195, 0x11d) == 0x64);
    lemma_mulmod_two(0x64, 0x11d, 8);
    assert(powmod(0x2, 196, 0x11d) == 0xc8);
    lemma_mulmod_two(0xc8, 0x11d, 8);
    lemma_xor(0x190u128, 0x11du128);
    assert(powmod(0x2, 197, 0x11d) == 0x8d);
    lemma_mulmod_two(0x8d, 0x11d, 8);
    lemma_xor(0x11au128, 0x11du128);
    assert(powmod(0x2, 198, 0x11d) == 0x7);
    lemma_mulmod_two(0x7, 0x11d, 8);
    assert(powmod(0x2, 199, 0x11d) == 0xe);
    lemma_mulmod_two(0xe, 0x11d, 8);
    assert(powmod(0x2, 200, 0x11d) == 0x1c);
    lemma_mulmod_two(0x1c, 0x11d, 8);
    assert(powmod(0x2, 201, 0x11d) == 0x38);
    lemma_mulmod_two(0x38, 0x11d, 8);
    assert(powmod(0x2, 202, 0x11d) == 0x70);
    lemma_mulmod_two(0x70, 0x11d, 8);
    assert(powmod(0x2, 203, 0x11d) == 0xe0);
    lemma_mulmod_two(0xe0, 0x11d, 8);
    lemma_xor(0x1c0u128, 0x11du128);
    assert(powmod(0x2, 204, 0x11d) == 0xdd);
    lemma_mulmod_two(0xdd, 0x11d, 8);
    lemma_xor(0x1bau128, 0x11du128);
    assert(powmod(0x2, 205, 0x11d) == 0xa7);
    lemma_mulmod_two(0xa7, 0x11d, 8);
    lemma_xor(0x14eu128, 0x11du128);
    assert(powmod(0x2, 206, 0x11d) == 0x53);
    lemma_mulmod_two(0x53, 0x11d, 8);
    assert(powmod(0x2, 207, 0x11d) == 0xa6);
    lemma_mulmod_two(0xa6, 0x11d, 8);
    lemma_xor(0x14cu128, 0x11du128);
    assert(powmod(0x2, 208, 0x11d) == 0x51);
}

/// The powers `0x2^209` to `0x2^224` in `gf256`.
#[verifier::rlimit(40)]
proof fn gf256_powers_13()
    requires
        gf256_gpow(208) == 0x51,
    ensures
        gf256_gpow(209) == 0xa2,
        gf256_gpow(210) == 0x59,
        gf256_gpow(211) == 0xb2,
        gf256_gpow(212) == 0x79,
        gf256_gpow(213) == 0xf2,
        gf256_gpow(214) == 0xf9,
        gf256_gpow(215) == 0xef,
        gf256_gpow(216) == 0xc3,
        gf256_gpow(217) == 0x9b,
        gf256_gpow(218) == 0x2b,
        gf256_gpow(219) == 0x56,
        gf256_gpow(220) == 0xac,
        gf256_gpow(221) == 0x45,
        gf256_gpow(222) == 0x8a,
        gf256_gpow(223) == 0x9,
        gf256_gpow(224) == 0x12,
{
    reveal(gf256_gpow);
    gf256_xor_facts();
    assert(bitlen(0x11d) == 9) by {
        reveal_with_fuel(bitlen, 11);
    }
    assert(exp2(8) == 0x100) by {
        reveal_with_fuel(exp2, 10);
    }
    lemma_mulmod_two(0x51, 0x11d, 8);
    assert(powmod(0x2, 209, 0x11d) == 0xa2);
    lemma_mulmod_two(0xa2, 0x11d, 8);
    lemma_xor(0x144u128, 0x11du128);
    assert(powmod(0x2, 210, 0x11d) == 0x59);
    lemma_mulmod_two(0x59, 0x11d, 8);
    assert(powmod(0x2, 211, 0x11d) == 0xb2);
    lemma_mulmod_two(0xb2, 0x11d, 8);
    lemma_xor(0x164u128, 0x11du128);
    assert(powmod(0x2, 212, 0x11d) == 0x79);
    lemma_mulmod_two(0x79, 0x11d, 8);
    assert(powmod(0x2, 213, 0x11d) == 0xf2);
    lemma_mulmod_two(0xf2, 0x11d, 8);
    lemma_xor(0x1e4u128, 0x11du128);
    assert(powmod(0x2, 214, 0x11d) == 0xf9);
    lemma_mulmod_two(0xf9, 0x11d, 8);
    lemma_xor(0x1f2u128, 0x11du128);
    assert(powmod(0x2, 215, 0x11d) == 0xef);
    lemma_mulmod_two(0xef, 0x11d, 8);
    lemma_xor(0x1deu128, 0x11du128);
    assert(powmod(0x2, 216, 0x11d) == 0xc3);
    lemma_mulmod_two(0xc3, 0x11d, 8);
    lemma_xor(0x186u128, 0x11du128);
    assert(powmod(0x2, 217, 0x11d) == 0x9b);
    lemma_mulmod_two(0x9b, 0x11d, 8);
    lemma_xor(0x136u128, 0x11du128);
    assert(powmod(0x2, 218, 0x11d) == 0x2b);
    lemma_mulmod_two(0x2b, 0x11d, 8);
    assert(powmod(0x2, 219, 0x11d) == 0x56);
    lemma_mulmod_two(0x56, 0x11d, 8);
    assert(powmod(0x2, 220, 0x11d) == 0xac);
    lemma_mulmod_two(0xac, 0x11d, 8);
    lemma_xor(0x158u128, 0x11du128);
    assert(powmod(0x2, 221, 0x11d) == 0x45);
    lemma_mulmod_two(0x45, 0x11d, 8);
    assert(powmod(0x2, 222, 0x11d) == 0x8a);
    lemma_mulmod_two(0x8a, 0x11d, 8);
    lemma_xor(0x114u128, 0x11du128);
    assert(powmod(0x2, 223, 0x11d) == 0x9);
    lemma_mulmod_two(0x9, 0x11d, 8);
    assert(powmod(0x2, 224, 0x11d) == 0x12);
}

/// The powers `0x2^225` to `0x2^240` in `gf256`.
#[verifier::rlimit(40)]
proof fn gf256_powers_14()
    requires
        gf256_gpow(224) == 0x12,
    ensures
        gf256_gpow(225) == 0x24,
        gf256_gpow(226) == 0x48,
        gf256_gpow(227) == 0x90,
        gf256_gpow(228) == 0x3d,
        gf256_gpow(229) == 0x7a,
        gf256_gpow(230) == 0xf4,
        gf256_gpow(231) == 0xf5,
        gf256_gpow(232) == 0xf7,
        gf256_gpow(233) == 0xf3,
        gf256_gpow(234) == 0xfb,
        gf256_gpow(235) == 0xeb,
        gf256_gpow(236) == 0xcb,
        gf256_gpow(237) == 0x8b,
        gf256_gpow(238) == 0xb,
        gf256_gpow(239) == 0x16,
        gf256_gpow(240) == 0x2c,
{
    reveal(gf256_gpow);
    gf256_xor_facts();
    assert(bitlen(0x11d) == 9) by {
        reveal_with_fuel(bitlen, 11);
    }
    assert(exp2(8) == 0x100) by {
        reveal_with_fuel(exp2, 10);
    }
    lemma_mulmod_two(0x12, 0x11d, 8);
    assert(powmod(0x2, 225, 0x11d) == 0x24);
    lemma_mulmod_two(0x24, 0x11d, 8);
    assert(powmod(0x2, 226, 0x11d) == 0x48);
    lemma_mulmod_two(0x48, 0x11d, 8);
    assert(powmod(0x2, 227, 0x11d) == 0x90);
    lemma_mulmod_two(0x90, 0x11d, 8);
    lemma_xor(0x120u128, 0x11du128);
    assert(powmod(0x2, 228, 0x11d) == 0x3d);
    lemma_mulmod_two(0x3d, 0x11d, 8);
    assert(powmod(0x2, 229, 0x11d) == 0x7a);
    lemma_mulmod_two(0x7a, 0x11d, 8);
    assert(powmod(0x2, 230, 0x11d) == 0xf4);
    lemma_mulmod_two(0xf4, 0x11d, 8);
    lemma_xor(0x1e8u128, 0x11du128);
    assert(powmod(0x2, 231, 0x11d) == 0xf5);
    lemma_mulmod_two(0xf5, 0x11d, 8);
    lemma_xor(0x1eau128, 0x11du128);
    assert(powmod(0x2, 232, 0x11d) == 0xf7);
    lemma_mulmod_two(0xf7, 0x11d, 8);
    lemma_xor(0x1eeu128, 0x11du128);
    assert(powmod(0x2, 233, 0x11d) == 0xf3);
    lemma_mulmod_two(0xf3, 0x11d, 8);
    lemma_xor(0x1e6u128, 0x11du128);
    assert(powmod(0x2, 234, 0x11d) == 0xfb);
    lemma_mulmod_two(0xfb, 0x11d, 8);
    lemma_xor(0x1f6u128, 0x11du128);
    assert(powmod(0x2, 235, 0x11d) == 0xeb);
    lemma_mulmod_two(0xeb, 0x11d, 8);
    lemma_xor(0x1d6u128, 0x11du128);
    assert(powmod(0x2, 236, 0x11d) == 0xcb);
    lemma_mulmod_two(0xcb, 0x11d, 8);
    lemma_xor(0x196u128, 0x11du128);
    assert(powmod(0x2, 237, 0x11d) == 0x8b);
    lemma_mulmod_two(0x8b, 0x11d, 8);
    lemma_xor(0x116u128, 0x11du128);
    assert(powmod(0x2, 238, 0x11d) == 0xb);
    lemma_mulmod_two(0xb, 0x11d, 8);
    assert(powmod(0x2, 239, 0x11d) == 0x16);
    lemma_mulmod_two(0x16, 0x11d, 8);
    assert(powmod(0x2, 240, 0x11d) == 0x2c);
}

/// The powers `0x2^241` to `0x2^255` in `gf256`.
#[verifier::rlimit(40)]
proof fn gf256_powers_15()
    requires
        gf256_gpow(240) == 0x2c,
    ensures
        gf256_gpow(241) == 0x58,
        gf256_gpow(242) == 0xb0,
        gf256_gpow(243) == 0x7d,
        gf256_gpow(244) == 0xfa,
        gf256_gpow(245) == 0xe9,
        gf256_gpow(246) == 0xcf,
        gf256_gpow(247) == 0x83,
        gf256_gpow(248) == 0x1b,
        gf256_gpow(249) == 0x36,
        gf256_gpow(250) == 0x6c,
        gf256_gpow(251) == 0xd8,
        gf256_gpow(252) == 0xad,
        gf256_gpow(253) == 0x47,
        gf256_gpow(254) == 0x8e,
        gf256_gpow(255) == 0x1,
{
    reveal(gf256_gpow);
    gf256_xor_facts();
    assert(bitlen(0x11d) == 9) by {
        reveal_with_fuel(bitlen, 11);
    }
    assert(exp2(8) == 0x100) by {
        reveal_with_fuel(exp2, 10);
    }
    lemma_mulmod_two(0x2c, 0x11d, 8);
    assert(powmod(0x2, 241, 0x11d) == 0x58);
    lemma_mulmod_two(0x58, 0x11d, 8);
    assert(powmod(0x2, 242, 0x11d) == 0xb0);
    lemma_mulmod_two(0xb0, 0x11d, 8);
    lemma_xor(0x160u128, 0x11du128);
    assert(powmod(0x2, 243, 0x11d) == 0x7d);
    lemma_mulmod_two(0x7d, 0x11d, 8);
    assert(powmod(0x2, 244, 0x11d) == 0xfa);
    lemma_mulmod_two(0xfa, 0x11d, 8);
    lemma_xor(0x1f4u128, 0x11du128);
    assert(powmod(0x2, 245, 0x11d) == 0xe9);
    lemma_mulmod_two(0xe9, 0x11d, 8);
    lemma_xor(0x1d2u128, 0x11du128);
    assert(powmod(0x2, 246, 0x11d) == 0xcf);
    lemma_mulmod_two(0xcf, 0x11d, 8);
    lemma_xor(0x19eu128, 0x11du128);
    assert(powmod(0x2, 247, 0x11d) == 0x83);
    lemma_mulmod_two(0x83, 0x11d, 8);
    lemma_xor(0x106u128, 0x11du128);
    assert(powmod(0x2, 248, 0x11d) == 0x1b);
    lemma_mulmod_two(0x1b, 0x11d, 8);
    assert(powmod(0x2, 249, 0x11d) == 0x36);
    lemma_mulmod_two(0x36, 0x11d, 8);
    assert(powmod(0x2, 250, 0x11d) == 0x6c);
    lemma_mulmod_two(0x6c, 0x11d, 8);
    assert(powmod(0x2, 251, 0x11d) == 0xd8);
    lemma_mulmod_two(0xd8, 0x11d, 8);
    lemma_xor(0x1b0u128, 0x11du128);
    assert(powmod(0x2, 252, 0x11d) == 0xad);
    lemma_mulmod_two(0xad, 0x11d, 8);
    lemma_xor(0x15au128, 0x11du128);
    assert(powmod(0x2, 253, 0x11d) == 0x47);
    lemma_mulmod_two(0x47, 0x11d, 8);
    assert(powmod(0x2, 254, 0x11d) == 0x8e);
    lemma_mulmod_two(0x8e, 0x11d, 8);
    lemma_xor(0x11cu128, 0x11du128);
    assert(powmod(0x2, 255, 0x11d) == 0x1);
}

/// The discrete logarithm in `gf256`: the exponent `k < 255` with `0x2^k == b`.
pub open spec fn gf256_log(b: nat) -> nat {
    if b == 0x1 {
        0
    } else if b == 0x2 {
        1
    } else if b == 0x3 {
        25
    } else if b == 0x4 {
        2
    } else if b == 0x5 {
        50
    } else if b == 0x6 {
        26
    } else if b == 0x7 {
        198
    } else if b == 0x8 {
        3
    } else if b == 0x9 {
        223
    } else if b == 0xa {
        51
    } else if b == 0xb {
        238
    } else if b == 0xc {
        27
    } else if b == 0xd {
        104
    } else if b == 0xe {
        199
    } else if b == 0xf {
        75
    } else if b == 0x10 {
        4
    } else if b == 0x11 {
        100
    } else if b == 0x12 {
        224
    } else if b == 0x13 {
        14
    } else if b == 0x14 {
        52
    } else if b == 0x15 {
        141
    } else if b == 0x16 {
        239
    } else if b == 0x17 {
        129
    } else if b == 0x18 {
        28
    } else if b == 0x19 {
        193
    } else if b == 0x1a {
        105
    } else if b == 0x1b {
        248
    } else if b == 0x1c {
        200
    } else if b == 0x1d {
        8
    } else if b == 0x1e {
        76
    } else if b == 0x1f {
        113
    } else if b == 0x20 {
        5
    } else if b == 0x21 {
        138
    } else if b == 0x22 {
        101
    } else if b == 0x23 {
        47
    } else if b == 0x24 {
        225
    } else if b == 0x25 {
        36
    } else if b == 0x26 {
        15
    } else if b == 0x27 {
        33
    } else if b == 0x28 {
        53
    } else if b == 0x29 {
        147
    } else if b == 0x2a {
        142
    } else if b == 0x2b {
        218
    } else if b == 0x2c {
        240
    } else if b == 0x2d {
        18
    } else if b == 0x2e {
        130
    } else if b == 0x2f {
        69
    } else if b == 0x30 {
        29
    } else if b == 0x31 {
        181
    } else if b == 0x32 {
        194
    } else if b == 0x33 {
        125
    } else if b == 0x34 {
        106
    } else if b == 0x35 {
        39
    } else if b == 0x36 {
        249
    } else if b == 0x37 {
        185
    } else if b == 0x38 {
        201
    } else if b == 0x39 {
        154
    } else if b == 0x3a {
        9
    } else if b == 0x3b {
        120
    } else if b == 0x3c {
        77
    } else if b == 0x3d {
        228
    } else if b == 0x3e {
        114
    } else if b == 0x3f {
        166
    } else if b == 0x40 {
        6
    } else if b == 0x41 {
        191
    } else if b == 0x42 {
        139
    } else if b == 0x43 {
        98
    } else if b == 0x44 {
        102
    } else if b == 0x45 {
        221
    } else if b == 0x46 {
        48
    } else if b == 0x47 {
        253
    } else if b == 0x48 {
        226
    } else if b == 0x49 {
        152
    } else if b == 0x4a {
        37
    } else if b == 0x4b {
        179
    } else if b == 0x4c {
        16
    } else if b == 0x4d {
        145
    } else if b == 0x4e {
        34
    } else if b == 0x4f {
        136
    } else if b == 0x50 {
        54
    } else if b == 0x51 {
        208
    } else if b == 0x52 {
        148
    } else if b == 0x53 {
        206
    } else if b == 0x54 {
        143
    } else if b == 0x55 {
        150
    } else if b == 0x56 {
        219
    } else if b == 0x57 {
        189
    } else if b == 0x58 {
        241
    } else if b == 0x59 {
        210
    } else if b == 0x5a {
        19
    } else if b == 0x5b {
        92
    } else if b == 0x5c {
        131
    } else if b == 0x5d {
        56
    } else if b == 0x5e {
        70
    } else if b == 0x5f {
        64
    } else if b == 0x60 {
        30
    } else if b == 0x61 {
        66
    } else if b == 0x62 {
        182
    } else if b == 0x63 {
        163
    } else if b == 0x64 {
        195
    } else if b == 0x65 {
        72
    } else if b == 0x66 {
        126
    } else if b == 0x67 {
        110
    } else if b == 0x68 {
        107
    } else if b == 0x69 {
        58
    } else if b == 0x6a {
        40
    } else if b == 0x6b {
        84
    } else if b == 0x6c {
        250
    } else if b == 0x6d {
        133
    } else if b == 0x6e {
        186
    } else if b == 0x6f {
        61
    } else if b == 0x70 {
        202
    } else if b == 0x71 {
        94
    } else if b == 0x72 {
        155
    } else if b == 0x73 {
        159
    } else if b == 0x74 {
        10
    } else if b == 0x75 {
        21
    } else if b == 0x76 {
        121
    } else if b == 0x77 {
        43
    } else if b == 0x78 {
        78
    } else if b == 0x79 {
        212
    } else if b == 0x7a {
        229
    } else if b == 0x7b {
        172
    } else if b == 0x7c {
        115
    } else if b == 0x7d {
        243
    } else if b == 0x7e {
        167
    } else if b == 0x7f {
        87
    } else if b == 0x80 {
        7
    } else if b == 0x81 {
        112
    } else if b == 0x82 {
        192
    } else if b == 0x83 {
        247
    } else if b == 0x84 {
        140
    } else if b == 0x85 {
        128
    } else if b == 0x86 {
        99
    } else if b == 0x87 {
        13
    } else if b == 0x88 {
        103
    } else if b == 0x89 {
        74
    } else if b == 0x8a {
        222
    } else if b == 0x8b {
        237
    } else if b == 0x8c {
        49
    } else if b == 0x8d {
        197
    } else if b == 0x8e {
        254
    } else if b == 0x8f {
        24
    } else if b == 0x90 {
        227
    } else if b == 0x91 {
        165
    } else if b == 0x92 {
        153
    } else if b == 0x93 {
        119
    } else if b == 0x94 {
        38
    } else if b == 0x95 {
        184
    } else if b == 0x96 {
        180
    } else if b == 0x97 {
        124
    } else if b == 0x98 {
        17
    } else if b == 0x99 {
        68
    } else if b == 0x9a {
        146
    } else if b == 0x9b {
        217
    } else if b == 0x9c {
        35
    } else if b == 0x9d {
        32
    } else if b == 0x9e {
        137
    } else if b == 0x9f {
        46
    } else if b == 0xa0 {
        55
    } else if b == 0xa1 {
        63
    } else if b == 0xa2 {
        209
    } else if b == 0xa3 {
        91
    } else if b == 0xa4 {
        149
    } else if b == 0xa5 {
        188
    } else if b == 0xa6 {
        207
    } else if b == 0xa7 {
        205
    } else if b == 0xa8 {
        144
    } else if b == 0xa9 {
        135
    } else if b == 0xaa {
        151
    } else if b == 0xab {
        178
    } else if b == 0xac {
        220
    } else if b == 0xad {
        252
    } else if b == 0xae {
        190
    } else if b == 0xaf {
        97
    } else if b == 0xb0 {
        242
    } else if b == 0xb1 {
        86
    } else if b == 0xb2 {
        211
    } else if b == 0xb3 {
        171
    } else if b == 0xb4 {
        20
    } else if b == 0xb5 {
        42
    } else if b == 0xb6 {
        93
    } else if b == 0xb7 {
        158
    } else if b == 0xb8 {
        132
    } else if b == 0xb9 {
        60
    } else if b == 0xba {
        57
    } else if b == 0xbb {
        83
    } else if b == 0xbc {
        71
    } else if b == 0xbd {
        109
    } else if b == 0xbe {
        65
    } else if b == 0xbf {
        162
    } else if b == 0xc0 {
        31
    } else if b == 0xc1 {
        45
    } else if b == 0xc2 {
        67
    } else if b == 0xc3 {
        216
    } else if b == 0xc4 {
        183
    } else if b == 0xc5 {
        123
    } else if b == 0xc6 {
        164
    } else if b == 0xc7 {
        118
    } else if b == 0xc8 {
        196
    } else if b == 0xc9 {
        23
    } else if b == 0xca {
        73
    } else if b == 0xcb {
        236
    } else if b == 0xcc {
        127
    } else if b == 0xcd {
        12
    } else if b == 0xce {
        111
    } else if b == 0xcf {
        246
    } else if b == 0xd0 {
        108
    } else if b == 0xd1 {
        161
    } else if b == 0xd2 {
        59
    } else if b == 0xd3 {
        82
    } else if b == 0xd4 {
        41
    } else if b == 0xd5 {
        157
    } else if b == 0xd6 {
        85
    } else if b == 0xd7 {
        170
    } else if b == 0xd8 {
        251
    } else if b == 0xd9 {
        96
    } else if b == 0xda {
        134
    } else if b == 0xdb {
        177
    } else if b == 0xdc {
        187
    } else if b == 0xdd {
        204
    } else if b == 0xde {
        62
    } else if b == 0xdf {
        90
    } else if b == 0xe0 {
        203
    } else if b == 0xe1 {
        89
    } else if b == 0xe2 {
        95
    } else if b == 0xe3 {
        176
    } else if b == 0xe4 {
        156
    } else if b == 0xe5 {
        169
    } else if b == 0xe6 {
        160
    } else if b == 0xe7 {
        81
    } else if b == 0xe8 {
        11
    } else if b == 0xe9 {
        245
    } else if b == 0xea {
        22
    } else if b == 0xeb {
        235
    } else if b == 0xec {
        122
    } else if b == 0xed {
        117
    } else if b == 0xee {
        44
    } else if b == 0xef {
        215
    } else if b == 0xf0 {
        79
    } else if b == 0xf1 {
        174
    } else if b == 0xf2 {
        213
    } else if b == 0xf3 {
        233
    } else if b == 0xf4 {
        230
    } else if b == 0xf5 {
        231
    } else if b == 0xf6 {
        173
    } else if b == 0xf7 {
        232
    } else if b == 0xf8 {
        116
    } else if b == 0xf9 {
        214
    } else if b == 0xfa {
        244
    } else if b == 0xfb {
        234
    } else if b == 0xfc {
        168
    } else if b == 0xfd {
        80
    } else if b == 0xfe {
        88
    } else if b == 0xff {
        175
    } else {
        0
    }
}

/// The logarithms of the elements `0x1` to `0x20` of `gf256`.
#[verifier::rlimit(40)]
proof fn gf256_log_part_0(b: nat)
    requires
        0x1 <= b < 0x21,
    ensures
        gf256_log(b) < 255,
        gf256_gpow(gf256_log(b)) == b,
{
    gf256_powers_0();
    gf256_powers_1();
    gf256_powers_2();
    gf256_powers_3();
    gf256_powers_4();
    gf256_powers_5();
    gf256_powers_6();
    gf256_powers_7();
    gf256_powers_8();
    gf256_powers_9();
    gf256_powers_10();
    gf256_powers_11();
    gf256_powers_12();
    gf256_powers_13();
    gf256_powers_14();
    gf256_powers_15();
    if b == 0x1 {
        assert(gf256_log(b) == 0);
    } else if b == 0x2 {
        assert(gf256_log(b) == 1);
    } else if b == 0x3 {
        assert(gf256_log(b) == 25);
    } else if b == 0x4 {
        assert(gf256_log(b) == 2);
    } else if b == 0x5 {
        assert(gf256_log(b) == 50);
    } else if b == 0x6 {
        assert(gf256_log(b) == 26);
    } else if b == 0x7 {
        assert(gf256_log(b) == 198);
    } else if b == 0x8 {
        assert(gf256_log(b) == 3);
    } else if b == 0x9 {
        assert(gf256_log(b) == 223);
    } else if b == 0xa {
        assert(gf256_log(b) == 51);
    } else if b == 0xb {
        assert(gf256_log(b) == 238);
    } else if b == 0xc {
        assert(gf256_log(b) == 27);
    } else if b == 0xd {
        assert(gf256_log(b) == 104);
    } else if b == 0xe {
        assert(gf256_log(b) == 199);
    } else if b == 0xf {
        assert(gf256_log(b) == 75);
    } else if b == 0x10 {
        assert(gf256_log(b) == 4);
    } else if b == 0x11 {
        assert(gf256_log(b) == 100);
    } else if b == 0x12 {
        assert(gf256_log(b) == 224);
    } else if b == 0x13 {
        assert(gf256_log(b) == 14);
    } else if b == 0x14 {
        assert(gf256_log(b) == 52);
    } else if b == 0x15 {
        assert(gf256_log(b) == 141);
    } else if b == 0x16 {
        assert(gf256_log(b) == 239);
    } else if b == 0x17 {
        assert(gf256_log(b) == 129);
    } else if b == 0x18 {
        assert(gf256_log(b) == 28);
    } else if b == 0x19 {
        assert(gf256_log(b) == 193);
    } else if b == 0x1a {
        assert(gf256_log(b) == 105);
    } else if b == 0x1b {
        assert(gf256_log(b) == 248);
    } else if b == 0x1c {
        assert(gf256_log(b) == 200);
    } else if b == 0x1d {
        assert(gf256_log(b) == 8);
    } else if b == 0x1e {
        assert(gf256_log(b) == 76);
    } else if b == 0x1f {
        assert(gf256_log(b) == 113);
    } else if b == 0x20 {
        assert(gf256_log(b) == 5);
    }
}

/// The logarithms of the elements `0x21` to `0x40` of `gf256`.
#[verifier::rlimit(40)]
proof fn gf256_log_part_1(b: nat)
    requires
        0x21 <= b < 0x41,
    ensures
        gf256_log(b) < 255,
        gf256_gpow(gf256_log(b)) == b,
{
    gf256_powers_0();
    gf256_powers_1();
    gf256_powers_2();
    gf256_powers_3();
    gf256_powers_4();
    gf256_powers_5();
    gf256_powers_6();
    gf256_powers_7();
    gf256_powers_8();
    gf256_powers_9();
    gf256_powers_10();
    gf256_powers_11();
    gf256_powers_12();
    gf256_powers_13();
    gf256_powers_14();
    gf256_powers_15();
    if b == 0x21 {
        assert(gf256_log(b) == 138);
    } else if b == 0x22 {
        assert(gf256_log(b) == 101);
    } else if b == 0x23 {
        assert(gf256_log(b) == 47);
    } else if b == 0x24 {
        assert(gf256_log(b) == 225);
    } else if b == 0x25 {
        assert(gf256_log(b) == 36);
    } else if b == 0x26 {
        assert(gf256_log(b) == 15);
    } else if b == 0x27 {
        assert(gf256_log(b) == 33);
    } else if b == 0x28 {
        assert(gf256_log(b) == 53);
    } else if b == 0x29 {
        assert(gf256_log(b) == 147);
    } else if b == 0x2a {
        assert(gf256_log(b) == 142);
    } else if b == 0x2b {
        assert(gf256_log(b) == 218);
    } else if b == 0x2c {
        assert(gf256_log(b) == 240);
    } else if b == 0x2d {
        assert(gf256_log(b) == 18);
    } else if b == 0x2e {
        assert(gf256_log(b) == 130);
    } else if b == 0x2f {
        assert(gf256_log(b) == 69);
    } else if b == 0x30 {
        assert(gf256_log(b) == 29);
    } else if b == 0x31 {
        assert(gf256_log(b) == 181);
    } else if b == 0x32 {
        assert(gf256_log(b) == 194);
    } else if b == 0x33 {
        assert(gf256_log(b) == 125);
    } else if b == 0x34 {
        assert(gf256_log(b) == 106);
    } else if b == 0x35 {
        assert(gf256_log(b) == 39);
    } else if b == 0x36 {
        assert(gf256_log(b) == 249);
    } else if b == 0x37 {
        assert(gf256_log(b) == 185);
    } else if b == 0x38 {
        assert(gf256_log(b) == 201);
    } else if b == 0x39 {
        assert(gf256_log(b) == 154);
    } else if b == 0x3a {
        assert(gf256_log(b) == 9);
    } else if b == 0x3b {
        assert(gf256_log(b) == 120);
    } else if b == 0x3c {
        assert(gf256_log(b) == 77);
    } else if b == 0x3d {
        assert(gf256_log(b) == 228);
    } else if b == 0x3e {
        assert(gf256_log(b) == 114);
    } else if b == 0x3f {
        assert(gf256_log(b) == 166);
    } else if b == 0x40 {
        assert(gf256_log(b) == 6);
    }
}

/// The logarithms of the elements `0x41` to `0x60` of `gf256`.
#[verifier::rlimit(40)]
proof fn gf256_log_part_2(b: nat)
    requires
        0x41 <= b < 0x61,
    ensures
        gf256_log(b) < 255,
        gf256_gpow(gf256_log(b)) == b,
{
    gf256_powers_0();
    gf256_powers_1();
    gf256_powers_2();
    gf256_powers_3();
    gf256_powers_4();
    gf256_powers_5();
    gf256_powers_6();
    gf256_powers_7();
    gf256_powers_8();
    gf256_powers_9();
    gf256_powers_10();
    gf256_powers_11();
    gf256_powers_12();
    gf256_powers_13();
    gf256_powers_14();
    gf256_powers_15();
    if b == 0x41 {
        assert(gf256_log(b) == 191);
    } else if b == 0x42 {
        assert(gf256_log(b) == 139);
    } else if b == 0x43 {
        assert(gf256_log(b) == 98);
    } else if b == 0x44 {
        assert(gf256_log(b) == 102);
    } else if b == 0x45 {
        assert(gf256_log(b) == 221);
    } else if b == 0x46 {
        assert(gf256_log(b) == 48);
    } else if b == 0x47 {
        assert(gf256_log(b) == 253);
    } else if b == 0x48 {
        assert(gf256_log(b) == 226);
    } else if b == 0x49 {
        assert(gf256_log(b) == 152);
    } else if b == 0x4a {
        assert(gf256_log(b) == 37);
    } else if b == 0x4b {
        assert(gf256_log(b) == 179);
    } else if b == 0x4c {
        assert(gf256_log(b) == 16);
    } else if b == 0x4d {
        assert(gf256_log(b) == 145);
    } else if b == 0x4e {
        assert(gf256_log(b) == 34);
    } else if b == 0x4f {
        assert(gf256_log(b) == 136);
    } else if b == 0x50 {
        assert(gf256_log(b) == 54);
    } else if b == 0x51 {
        assert(gf256_log(b) == 208);
    } else if b == 0x52 {
        assert(gf256_log(b) == 148);
    } else if b == 0x53 {
        assert(gf256_log(b) == 206);
    } else if b == 0x54 {
        assert(gf256_log(b) == 143);
    } else if b == 0x55 {
        assert(gf256_log(b) == 150);
    } else if b == 0x56 {
        assert(gf256_log(b) == 219);
    } else if b == 0x57 {
        assert(gf256_log(b) == 189);
    } else if b == 0x58 {
        assert(gf256_log(b) == 241);
    } else if b == 0x59 {
        assert(gf256_log(b) == 210);
    } else if b == 0x5a {
        assert(gf256_log(b) == 19);
    } else if b == 0x5b {
        assert(gf256_log(b) == 92);
    } else if b == 0x5c {
        assert(gf256_log(b) == 131);
    } else if b == 0x5d {
        assert(gf256_log(b) == 56);
    } else if b == 0x5e {
        assert(gf256_log(b) == 70);
    } else if b == 0x5f {
        assert(gf256_log(b) == 64);
    } else if b == 0x60 {
        assert(gf256_log(b) == 30);
    }
}

/// The logarithms of the elements `0x61` to `0x80` of `gf256`.
#[verifier::rlimit(40)]
proof fn gf256_log_part_3(b: nat)
    requires
        0x61 <= b < 0x81,
    ensures
        gf256_log(b) < 255,
        gf256_gpow(gf256_log(b)) == b,
{
    gf256_powers_0();
    gf256_powers_1();
    gf256_powers_2();
    gf256_powers_3();
    gf256_powers_4();
    gf256_powers_5();
    gf256_powers_6();
    gf256_powers_7();
    gf256_powers_8();
    gf256_powers_9();
    gf256_powers_10();
    gf256_powers_11();
    gf256_powers_12();
    gf256_powers_13();
    gf256_powers_14();
    gf256_powers_15();
    if b == 0x61 {
        assert(gf256_log(b) == 66);
    } else if b == 0x62 {
        assert(gf256_log(b) == 182);
    } else if b == 0x63 {
        assert(gf256_log(b) == 163);
    } else if b == 0x64 {
        assert(gf256_log(b) == 195);
    } else if b == 0x65 {
        assert(gf256_log(b) == 72);
    } else if b == 0x66 {
        assert(gf256_log(b) == 126);
    } else if b == 0x67 {
        assert(gf256_log(b) == 110);
    } else if b == 0x68 {
        assert(gf256_log(b) == 107);
    } else if b == 0x69 {
        assert(gf256_log(b) == 58);
    } else if b == 0x6a {
        assert(gf256_log(b) == 40);
    } else if b == 0x6b {
        assert(gf256_log(b) == 84);
    } else if b == 0x6c {
        assert(gf256_log(b) == 250);
    } else if b == 0x6d {
        assert(gf256_log(b) == 133);
    } else if b == 0x6e {
        assert(gf256_log(b) == 186);
    } else if b == 0x6f {
        assert(gf256_log(b) == 61);
    } else if b == 0x70 {
        assert(gf256_log(b) == 202);
    } else if b == 0x71 {
        assert(gf256_log(b) == 94);
    } else if b == 0x72 {
        assert(gf256_log(b) == 155);
    } else if b == 0x73 {
        assert(gf256_log(b) == 159);
    } else if b == 0x74 {
        assert(gf256_log(b) == 10);
    } else if b == 0x75 {
        assert(gf256_log(b) == 21);
    } else if b == 0x76 {
        assert(gf256_log(b) == 121);
    } else if b == 0x77 {
        assert(gf256_log(b) == 43);
    } else if b == 0x78 {
        assert(gf256_log(b) == 78);
    } else if b == 0x79 {
        assert(gf256_log(b) == 212);
    } else if b == 0x7a {
        assert(gf256_log(b) == 229);
    } else if b == 0x7b {
        assert(gf256_log(b) == 172);
    } else if b == 0x7c {
        assert(gf256_log(b) == 115);
    } else if b == 0x7d {
        assert(gf256_log(b) == 243);
    } else if b == 0x7e {
        assert(gf256_log(b) == 167);
    } else if b == 0x7f {
        assert(gf256_log(b) == 87);
    } else if b == 0x80 {
        assert(gf256_log(b) == 7);
    }
}

/// The logarithms of the elements `0x81` to `0xa0` of `gf256`.
#[verifier::rlimit(40)]
proof fn gf256_log_part_4(b: nat)
    requires
        0x81 <= b < 0xa1,
    ensures
        gf256_log(b) < 255,
        gf256_gpow(gf256_log(b)) == b,
{
    gf256_powers_0();
    gf256_powers_1();
    gf256_powers_2();
    gf256_powers_3();
    gf256_powers_4();
    gf256_powers_5();
    gf256_powers_6();
    gf256_powers_7();
    gf256_powers_8();
    gf256_powers_9();
    gf256_powers_10();
    gf256_powers_11();
    gf256_powers_12();
    gf256_powers_13();
    gf256_powers_14();
    gf256_powers_15();
    if b == 0x81 {
        assert(gf256_log(b) == 112);
    } else if b == 0x82 {
        assert(gf256_log(b) == 192);
    } else if b == 0x83 {
        assert(gf256_log(b) == 247);
    } else if b == 0x84 {
        assert(gf256_log(b) == 140);
    } else if b == 0x85 {
        assert(gf256_log(b) == 128);
    } else if b == 0x86 {
        assert(gf256_log(b) == 99);
    } else if b == 0x87 {
        assert(gf256_log(b) == 13);
    } else if b == 0x88 {
        assert(gf256_log(b) == 103);
    } else if b == 0x89 {
        assert(gf256_log(b) == 74);
    } else if b == 0x8a {
        assert(gf256_log(b) == 222);
    } else if b == 0x8b {
        assert(gf256_log(b) == 237);
    } else if b == 0x8c {
        assert(gf256_log(b) == 49);
    } else if b == 0x8d {
        assert(gf256_log(b) == 197);
    } else if b == 0x8e {
        assert(gf256_log(b) == 254);
    } else if b == 0x8f {
        assert(gf256_log(b) == 24);
    } else if b == 0x90 {
        assert(gf256_log(b) == 227);
    } else if b == 0x91 {
        assert(gf256_log(b) == 165);
    } else if b == 0x92 {
        assert(gf256_log(b) == 153);
    } else if b == 0x93 {
        assert(gf256_log(b) == 119);
    } else if b == 0x94 {
        assert(gf256_log(b) == 38);
    } else if b == 0x95 {
        assert(gf256_log(b) == 184);
    } else if b == 0x96 {
        assert(gf256_log(b) == 180);
    } else if b == 0x97 {
        assert(gf256_log(b) == 124);
    } else if b == 0x98 {
        assert(gf256_log(b) == 17);
    } else if b == 0x99 {
        assert(gf256_log(b) == 68);
    } else if b == 0x9a {
        assert(gf256_log(b) == 146);
    } else if b == 0x9b {
        assert(gf256_log(b) == 217);
    } else if b == 0x9c {
        assert(gf256_log(b) == 35);
    } else if b == 0x9d {
        assert(gf256_log(b) == 32);
    } else if b == 0x9e {
        assert(gf256_log(b) == 137);
    } else if b == 0x9f {
        assert(gf256_log(b) == 46);
    } else if b == 0xa0 {
        assert(gf256_log(b) == 55);
    }
}

/// The logarithms of the elements `0xa1` to `0xc0` of `gf256`.
#[verifier::rlimit(40)]
proof fn gf256_log_part_5(b: nat)
    requires
        0xa1 <= b < 0xc1,
    ensures
        gf256_log(b) < 255,
        gf256_gpow(gf256_log(b)) == b,
{
    gf256_powers_0();
    gf256_powers_1();
    gf256_powers_2();
    gf256_powers_3();
    gf256_powers_4();
    gf256_powers_5();
    gf256_powers_6();
    gf256_powers_7();
    gf256_powers_8();
    gf256_powers_9();
    gf256_powers_10();
    gf256_powers_11();
    gf256_powers_12();
    gf256_powers_13();
    gf256_powers_14();
    gf256_powers_15();
    if b == 0xa1 {
        assert(gf256_log(b) == 63);
    } else if b == 0xa2 {
        assert(gf256_log(b) == 209);
    } else if b == 0xa3 {
        assert(gf256_log(b) == 91);
    } else if b == 0xa4 {
        assert(gf256_log(b) == 149);
    } else if b == 0xa5 {
        assert(gf256_log(b) == 188);
    } else if b == 0xa6 {
        assert(gf256_log(b) == 207);
    } else if b == 0xa7 {
        assert(gf256_log(b) == 205);
    } else if b == 0xa8 {
        assert(gf256_log(b) == 144);
    } else if b == 0xa9 {
        assert(gf256_log(b) == 135);
    } else if b == 0xaa {
        assert(gf256_log(b) == 151);
    } else if b == 0xab {
        assert(gf256_log(b) == 178);
    } else if b == 0xac {
        assert(gf256_log(b) == 220);
    } else if b == 0xad {
        assert(gf256_log(b) == 252);
    } else if b == 0xae {
        assert(gf256_log(b) == 190);
    } else if b == 0xaf {
        assert(gf256_log(b) == 97);
    } else if b == 0xb0 {
        assert(gf256_log(b) == 242);
    } else if b == 0xb1 {
        assert(gf256_log(b) == 86);
    } else if b == 0xb2 {
        assert(gf256_log(b) == 211);
    } else if b == 0xb3 {
        assert(gf256_log(b) == 171);
    } else if b == 0xb4 {
        assert(gf256_log(b) == 20);
    } else if b == 0xb5 {
        assert(gf256_log(b) == 42);
    } else if b == 0xb6 {
        assert(gf256_log(b) == 93);
    } else if b == 0xb7 {
        assert(gf256_log(b) == 158);
    } else if b == 0xb8 {
        assert(gf256_log(b) == 132);
    } else if b == 0xb9 {
        assert(gf256_log(b) == 60);
    } else if b == 0xba {
        assert(gf256_log(b) == 57);
    } else if b == 0xbb {
        assert(gf256_log(b) == 83);
    } else if b == 0xbc {
        assert(gf256_log(b) == 71);
    } else if b == 0xbd {
        assert(gf256_log(b) == 109);
    } else if b == 0xbe {
        assert(gf256_log(b) == 65);
    } else if b == 0xbf {
        assert(gf256_log(b) == 162);
    } else if b == 0xc0 {
        assert(gf256_log(b) == 31);
    }
}

/// The logarithms of the elements `0xc1` to `0xe0` of `gf256`.
#[verifier::rlimit(40)]
proof fn gf256_log_part_6(b: nat)
    requires
        0xc1 <= b < 0xe1,
    ensures
        gf256_log(b) < 255,
        gf256_gpow(gf256_log(b)) == b,
{
    gf256_powers_0();
    gf256_powers_1();
    gf256_powers_2();
    gf256_powers_3();
    gf256_powers_4();
    gf256_powers_5();
    gf256_powers_6();
    gf256_powers_7();
    gf256_powers_8();
    gf256_powers_9();
    gf256_powers_10();
    gf256_powers_11();
    gf256_powers_12();
    gf256_powers_13();
    gf256_powers_14();
    gf256_powers_15();
    if b == 0xc1 {
        assert(gf256_log(b) == 45);
    } else if b == 0xc2 {
        assert(gf256_log(b) == 67);
    } else if b == 0xc3 {
        assert(gf256_log(b) == 216);
    } else if b == 0xc4 {
        assert(gf256_log(b) == 183);
    } else if b == 0xc5 {
        assert(gf256_log(b) == 123);
    } else if b == 0xc6 {
        assert(gf256_log(b) == 164);
    } else if b == 0xc7 {
        assert(gf256_log(b) == 118);
    } else if b == 0xc8 {
        assert(gf256_log(b) == 196);
    } else if b == 0xc9 {
        assert(gf256_log(b) == 23);
    } else if b == 0xca {
        assert(gf256_log(b) == 73);
    } else if b == 0xcb {
        assert(gf256_log(b) == 236);
    } else if b == 0xcc {
        assert(gf256_log(b) == 127);
    } else if b == 0xcd {
        assert(gf256_log(b) == 12);
    } else if b == 0xce {
        assert(gf256_log(b) == 111);
    } else if b == 0xcf {
        assert(gf256_log(b) == 246);
    } else if b == 0xd0 {
        assert(gf256_log(b) == 108);
    } else if b == 0xd1 {
        assert(gf256_log(b) == 161);
    } else if b == 0xd2 {
        assert(gf256_log(b) == 59);
    } else if b == 0xd3 {
        assert(gf256_log(b) == 82);
    } else if b == 0xd4 {
        assert(gf256_log(b) == 41);
    } else if b == 0xd5 {
        assert(gf256_log(b) == 157);
    } else if b == 0xd6 {
        assert(gf256_log(b) == 85);
    } else if b == 0xd7 {
        assert(gf256_log(b) == 170);
    } else if b == 0xd8 {
        assert(gf256_log(b) == 251);
    } else if b == 0xd9 {
        assert(gf256_log(b) == 96);
    } else if b == 0xda {
        assert(gf256_log(b) == 134);
    } else if b == 0xdb {
        assert(gf256_log(b) == 177);
    } else if b == 0xdc {
        assert(gf256_log(b) == 187);
    } else if b == 0xdd {
        assert(gf256_log(b) == 204);
    } else if b == 0xde {
        assert(gf256_log(b) == 62);
    } else if b == 0xdf {
        assert(gf256_log(b) == 90);
    } else if b == 0xe0 {
        assert(gf256_log(b) == 203);
    }
}

/// The logarithms of the elements `0xe1` to `0xff` of `gf256`.
#[verifier::rlimit(40)]
proof fn gf256_log_part_7(b: nat)
    requires
        0xe1 <= b < 0x100,
    ensures
        gf256_log(b) < 255,
        gf256_gpow(gf256_log(b)) == b,
{
    gf256_powers_0();
    gf256_powers_1();
    gf256_powers_2();
    gf256_powers_3();
    gf256_powers_4();
    gf256_powers_5();
    gf256_powers_6();
    gf256_powers_7();
    gf256_powers_8();
    gf256_powers_9();
    gf256_powers_10();
    gf256_powers_11();
    gf256_powers_12();
    gf256_powers_13();
    gf256_powers_14();
    gf256_powers_15();
    if b == 0xe1 {
        assert(gf256_log(b) == 89);
    } else if b == 0xe2 {
        assert(gf256_log(b) == 95);
    } else if b == 0xe3 {
        assert(gf256_log(b) == 176);
    } else if b == 0xe4 {
        assert(gf256_log(b) == 156);
    } else if b == 0xe5 {
        assert(gf256_log(b) == 169);
    } else if b == 0xe6 {
        assert(gf256_log(b) == 160);
    } else if b == 0xe7 {
        assert(gf256_log(b) == 81);
    } else if b == 0xe8 {
        assert(gf256_log(b) == 11);
    } else if b == 0xe9 {
        assert(gf256_log(b) == 245);
    } else if b == 0xea {
        assert(gf256_log(b) == 22);
    } else if b == 0xeb {
        assert(gf256_log(b) == 235);
    } else if b == 0xec {
        assert(gf256_log(b) == 122);
    } else if b == 0xed {
        assert(gf256_log(b) == 117);
    } else if b == 0xee {
        assert(gf256_log(b) == 44);
    } else if b == 0xef {
        assert(gf256_log(b) == 215);
    } else if b == 0xf0 {
        assert(gf256_log(b) == 79);
    } else if b == 0xf1 {
        assert(gf256_log(b) == 174);
    } else if b == 0xf2 {
        assert(gf256_log(b) == 213);
    } else if b == 0xf3 {
        assert(gf256_log(b) == 233);
    } else if b == 0xf4 {
        assert(gf256_log(b) == 230);
    } else if b == 0xf5 {
        assert(gf256_log(b) == 231);
    } else if b == 0xf6 {
        assert(gf256_log(b) == 173);
    } else if b == 0xf7 {
        assert(gf256_log(b) == 232);
    } else if b == 0xf8 {
        assert(gf256_log(b) == 116);
    } else if b == 0xf9 {
        assert(gf256_log(b) == 214);
    } else if b == 0xfa {
        assert(gf256_log(b) == 244);
    } else if b == 0xfb {
        assert(gf256_log(b) == 234);
    } else if b == 0xfc {
        assert(gf256_log(b) == 168);
    } else if b == 0xfd {
        assert(gf256_log(b) == 80);
    } else if b == 0xfe {
        assert(gf256_log(b) == 88);
    } else if b == 0xff {
        assert(gf256_log(b) == 175);
    }
}

/// Every non-zero element of `gf256` is the power of the generator that its
/// logarithm names.
pub proof fn lemma_gf256_log(b: nat)
    requires
        0 < b < 0x100,
    ensures
        gf256_log(b) < 255,
        powmod(0x2, gf256_log(b), 0x11d) == b,
{
    reveal(gf256_gpow);
    if b < 0x21 {
        gf256_log_part_0(b);
    } else if b < 0x41 {
        gf256_log_part_1(b);
    } else if b < 0x61 {
        gf256_log_part_2(b);
    } else if b < 0x81 {
        gf256_log_part_3(b);
    } else if b < 0xa1 {
        gf256_log_part_4(b);
    } else if b < 0xc1 {
        gf256_log_part_5(b);
    } else if b < 0xe1 {
        gf256_log_part_6(b);
    } else {
        gf256_log_part_7(b);
    }
}

/// The generator of `gf256` comes back to one after `255` steps.
proof fn gf256_generator_order()
    ensures
        powmod(0x2, 255, 0x11d) == 1,
{
    gf256_powers_0();
    gf256_powers_1();
    gf256_powers_2();
    gf256_powers_3();
    gf256_powers_4();
    gf256_powers_5();
    gf256_powers_6();
    gf256_powers_7();
    gf256_powers_8();
    gf256_powers_9();
    gf256_powers_10();
    gf256_powers_11();
    gf256_powers_12();
    gf256_powers_13();
    gf256_powers_14();
    gf256_powers_15();
    reveal(gf256_gpow);
}

/// The logarithms of the powers `0x2^0` to `0x2^31` in `gf256`.
#[verifier::rlimit(40)]
proof fn gf256_log_pow_part_0(k: nat)
    requires
        0 <= k < 32,
    ensures
        gf256_log(gf256_gpow(k)) == k,
{
    gf256_powers_0();
    gf256_powers_1();
    gf256_powers_2();
    gf256_powers_3();
    gf256_powers_4();
    gf256_powers_5();
    gf256_powers_6();
    gf256_powers_7();
    gf256_powers_8();
    gf256_powers_9();
    gf256_powers_10();
    gf256_powers_11();
    gf256_powers_12();
    gf256_powers_13();
    gf256_powers_14();
    gf256_powers_15();
    if k == 0 {
        assert(gf256_gpow(0) == 0x1);
    } else if k == 1 {
        assert(gf256_gpow(1) == 0x2);
    } else if k == 2 {
        assert(gf256_gpow(2) == 0x4);
    } else if k == 3 {
        assert(gf256_gpow(3) == 0x8);
    } else if k == 4 {
        assert(gf256_gpow(4) == 0x10);
    } else if k == 5 {
        assert(gf256_gpow(5) == 0x20);
    } else if k == 6 {
        assert(gf256_gpow(6) == 0x40);
    } else if k == 7 {
        assert(gf256_gpow(7) == 0x80);
    } else if k == 8 {
        assert(gf256_gpow(8) == 0x1d);
    } else if k == 9 {
        assert(gf256_gpow(9) == 0x3a);
    } else if k == 10 {
        assert(gf256_gpow(10) == 0x74);
    } else if k == 11 {
        assert(gf256_gpow(11) == 0xe8);
    } else if k == 12 {
        assert(gf256_gpow(12) == 0xcd);
    } else if k == 13 {
        assert(gf256_gpow(13) == 0x87);
    } else if k == 14 {
        assert(gf256_gpow(14) == 0x13);
    } else if k == 15 {
        assert(gf256_gpow(15) == 0x26);
    } else if k == 16 {
        assert(gf256_gpow(16) == 0x4c);
    } else if k == 17 {
        assert(gf256_gpow(17) == 0x98);
    } else if k == 18 {
        assert(gf256_gpow(18) == 0x2d);
    } else if k == 19 {
        assert(gf256_gpow(19) == 0x5a);
    } else if k == 20 {
        assert(gf256_gpow(20) == 0xb4);
    } else if k == 21 {
        assert(gf256_gpow(21) == 0x75);
    } else if k == 22 {
        assert(gf256_gpow(22) == 0xea);
    } else if k == 23 {
        assert(gf256_gpow(23) == 0xc9);
    } else if k == 24 {
        assert(gf256_gpow(24) == 0x8f);
    } else if k == 25 {
        assert(gf256_gpow(25) == 0x3);
    } else if k == 26 {
        assert(gf256_gpow(26) == 0x6);
    } else if k == 27 {
        assert(gf256_gpow(27) == 0xc);
    } else if k == 28 {
        assert(gf256_gpow(28) == 0x18);
    } else if k == 29 {
        assert(gf256_gpow(29) == 0x30);
    } else if k == 30 {
        assert(gf256_gpow(30) == 0x60);
    } else if k == 31 {
        assert(gf256_gpow(31) == 0xc0);
    }
}

/// The logarithms of the powers `0x2^32` to `0x2^63` in `gf256`.
#[verifier::rlimit(40)]
proof fn gf256_log_pow_part_1(k: nat)
    requires
        32 <= k < 64,
    ensures
        gf256_log(gf256_gpow(k)) == k,
{
    gf256_powers_0();
    gf256_powers_1();
    gf256_powers_2();
    gf256_powers_3();
    gf256_powers_4();
    gf256_powers_5();
    gf256_powers_6();
    gf256_powers_7();
    gf256_powers_8();
    gf256_powers_9();
    gf256_powers_10();
    gf256_powers_11();
    gf256_powers_12();
    gf256_powers_13();
    gf256_powers_14();
    gf256_powers_15();
    if k == 32 {
        assert(gf256_gpow(32) == 0x9d);
    } else if k == 33 {
        assert(gf256_gpow(33) == 0x27);
    } else if k == 34 {
        assert(gf256_gpow(34) == 0x4e);
    } else if k == 35 {
        assert(gf256_gpow(35) == 0x9c);
    } else if k == 36 {
        assert(gf256_gpow(36) == 0x25);
    } else if k == 37 {
        assert(gf256_gpow(37) == 0x4a);
    } else if k == 38 {
        assert(gf256_gpow(38) == 0x94);
    } else if k == 39 {
        assert(gf256_gpow(39) == 0x35);
    } else if k == 40 {
        assert(gf256_gpow(40) == 0x6a);
    } else if k == 41 {
        assert(gf256_gpow(41) == 0xd4);
    } else if k == 42 {
        assert(gf256_gpow(42) == 0xb5);
    } else if k == 43 {
        assert(gf256_gpow(43) == 0x77);
    } else if k == 44 {
        assert(gf256_gpow(44) == 0xee);
    } else if k == 45 {
        assert(gf256_gpow(45) == 0xc1);
    } else if k == 46 {
        assert(gf256_gpow(46) == 0x9f);
    } else if k == 47 {
        assert(gf256_gpow(47) == 0x23);
    } else if k == 48 {
        assert(gf256_gpow(48) == 0x46);
    } else if k == 49 {
        assert(gf256_gpow(49) == 0x8c);
    } else if k == 50 {
        assert(gf256_gpow(50) == 0x5);
    } else if k == 51 {
        assert(gf256_gpow(51) == 0xa);
    } else if k == 52 {
        assert(gf256_gpow(52) == 0x14);
    } else if k == 53 {
        assert(gf256_gpow(53) == 0x28);
    } else if k == 54 {
        assert(gf256_gpow(54) == 0x50);
    } else if k == 55 {
        assert(gf256_gpow(55) == 0xa0);
    } else if k == 56 {
        assert(gf256_gpow(56) == 0x5d);
    } else if k == 57 {
        assert(gf256_gpow(57) == 0xba);
    } else if k == 58 {
        assert(gf256_gpow(58) == 0x69);
    } else if k == 59 {
        assert(gf256_gpow(59) == 0xd2);
    } else if k == 60 {
        assert(gf256_gpow(60) == 0xb9);
    } else if k == 61 {
        assert(gf256_gpow(61) == 0x6f);
    } else if k == 62 {
        assert(gf256_gpow(62) == 0xde);
    } else if k == 63 {
        assert(gf256_gpow(63) == 0xa1);
    }
}

/// The logarithms of the powers `0x2^64` to `0x2^95` in `gf256`.
#[verifier::rlimit(40)]
proof fn gf256_log_pow_part_2(k: nat)
    requires
        64 <= k < 96,
    ensures
        gf256_log(gf256_gpow(k)) == k,
{
    gf256_powers_0();
    gf256_powers_1();
    gf256_powers_2();
    gf256_powers_3();
    gf256_powers_4();
    gf256_powers_5();
    gf256_powers_6();
    gf256_powers_7();
    gf256_powers_8();
    gf256_powers_9();
    gf256_powers_10();
    gf256_powers_11();
    gf256_powers_12();
    gf256_powers_13();
    gf256_powers_14();
    gf256_powers_15();
    if k == 64 {
        assert(gf256_gpow(64) == 0x5f);
    } else if k == 65 {
        assert(gf256_gpow(65) == 0xbe);
    } else if k == 66 {
        assert(gf256_gpow(66) == 0x61);
    } else if k == 67 {
        assert(gf256_gpow(67) == 0xc2);
    } else if k == 68 {
        assert(gf256_gpow(68) == 0x99);
    } else if k == 69 {
        assert(gf256_gpow(69) == 0x2f);
    } else if k == 70 {
        assert(gf256_gpow(70) == 0x5e);
    } else if k == 71 {
        assert(gf256_gpow(71) == 0xbc);
    } else if k == 72 {
        assert(gf256_gpow(72) == 0x65);
    } else if k == 73 {
        assert(gf256_gpow(73) == 0xca);
    } else if k == 74 {
        assert(gf256_gpow(74) == 0x89);
    } else if k == 75 {
        assert(gf256_gpow(75) == 0xf);
    } else if k == 76 {
        assert(gf256_gpow(76) == 0x1e);
    } else if k == 77 {
        assert(gf256_gpow(77) == 0x3c);
    } else if k == 78 {
        assert(gf256_gpow(78) == 0x78);
    } else if k == 79 {
        assert(gf256_gpow(79) == 0xf0);
    } else if k == 80 {
        assert(gf256_gpow(80) == 0xfd);
    } else if k == 81 {
        assert(gf256_gpow(81) == 0xe7);
    } else if k == 82 {
        assert(gf256_gpow(82) == 0xd3);
    } else if k == 83 {
        assert(gf256_gpow(83) == 0xbb);
    } else if k == 84 {
        assert(gf256_gpow(84) == 0x6b);
    } else if k == 85 {
        assert(gf256_gpow(85) == 0xd6);
    } else if k == 86 {
        assert(gf256_gpow(86) == 0xb1);
    } else if k == 87 {
        assert(gf256_gpow(87) == 0x7f);
    } else if k == 88 {
        assert(gf256_gpow(88) == 0xfe);
    } else if k == 89 {
        assert(gf256_gpow(89) == 0xe1);
    } else if k == 90 {
        assert(gf256_gpow(90) == 0xdf);
    } else if k == 91 {
        assert(gf256_gpow(91) == 0xa3);
    } else if k == 92 {
        assert(gf256_gpow(92) == 0x5b);
    } else if k == 93 {
        assert(gf256_gpow(93) == 0xb6);
    } else if k == 94 {
        assert(gf256_gpow(94) == 0x71);
    } else if k == 95 {
        assert(gf256_gpow(95) == 0xe2);
    }
}

/// The logarithms of the powers `0x2^96` to `0x2^127` in `gf256`.
#[verifier::rlimit(40)]
proof fn gf256_log_pow_part_3(k: nat)
    requires
        96 <= k < 128,
    ensures
        gf256_log(gf256_gpow(k)) == k,
{
    gf256_powers_0();
    gf256_powers_1();
    gf256_powers_2();
    gf256_powers_3();
    gf256_powers_4();
    gf256_powers_5();
    gf256_powers_6();
    gf256_powers_7();
    gf256_powers_8();
    gf256_powers_9();
    gf256_powers_10();
    gf256_powers_11();
    gf256_powers_12();
    gf256_powers_13();
    gf256_powers_14();
    gf256_powers_15();
    if k == 96 {
        assert(gf256_gpow(96) == 0xd9);
    } else if k == 97 {
        assert(gf256_gpow(97) == 0xaf);
    } else if k == 98 {
        assert(gf256_gpow(98) == 0x43);
    } else if k == 99 {
        assert(gf256_gpow(99) == 0x86);
    } else if k == 100 {
        assert(gf256_gpow(100) == 0x11);
    } else if k == 101 {
        assert(gf256_gpow(101) == 0x22);
    } else if k == 102 {
        assert(gf256_gpow(102) == 0x44);
    } else if k == 103 {
        assert(gf256_gpow(103) == 0x88);
    } else if k == 104 {
        assert(gf256_gpow(104) == 0xd);
    } else if k == 105 {
        assert(gf256_gpow(105) == 0x1a);
    } else if k == 106 {
        assert(gf256_gpow(106) == 0x34);
    } else if k == 107 {
        assert(gf256_gpow(107) == 0x68);
    } else if k == 108 {
        assert(gf256_gpow(108) == 0xd0);
    } else if k == 109 {
        assert(gf256_gpow(109) == 0xbd);
    } else if k == 110 {
        assert(gf256_gpow(110) == 0x67);
    } else if k == 111 {
        assert(gf256_gpow(111) == 0xce);
    } else if k == 112 {
        assert(gf256_gpow(112) == 0x81);
    } else if k == 113 {
        assert(gf256_gpow(113) == 0x1f);
    } else if k == 114 {
        assert(gf256_gpow(114) == 0x3e);
    } else if k == 115 {
        assert(gf256_gpow(115) == 0x7c);
    } else if k == 116 {
        assert(gf256_gpow(116) == 0xf8);
    } else if k == 117 {
        assert(gf256_gpow(117) == 0xed);
    } else if k == 118 {
        assert(gf256_gpow(118) == 0xc7);
    } else if k == 119 {
        assert(gf256_gpow(119) == 0x93);
    } else if k == 120 {
        assert(gf256_gpow(120) == 0x3b);
    } else if k == 121 {
        assert(gf256_gpow(121) == 0x76);
    } else if k == 122 {
        assert(gf256_gpow(122) == 0xec);
    } else if k == 123 {
        assert(gf256_gpow(123) == 0xc5);
    } else if k == 124 {
        assert(gf256_gpow(124) == 0x97);
    } else if k == 125 {
        assert(gf256_gpow(125) == 0x33);
    } else if k == 126 {
        assert(gf256_gpow(126) == 0x66);
    } else if k == 127 {
        assert(gf256_gpow(127) == 0xcc);
    }
}

/// The logarithms of the powers `0x2^128` to `0x2^159` in `gf256`.
#[verifier::rlimit(40)]
proof fn gf256_log_pow_part_4(k: nat)
    requires
        128 <= k < 160,
    ensures
        gf256_log(gf256_gpow(k)) == k,
{
    gf256_powers_0();
    gf256_powers_1();
    gf256_powers_2();
    gf256_powers_3();
    gf256_powers_4();
    gf256_powers_5();
    gf256_powers_6();
    gf256_powers_7();
    gf256_powers_8();
    gf256_powers_9();
    gf256_powers_10();
    gf256_powers_11();
    gf256_powers_12();
    gf256_powers_13();
    gf256_powers_14();
    gf256_powers_15();
    if k == 128 {
        assert(gf256_gpow(128) == 0x85);
    } else if k == 129 {
        assert(gf256_gpow(129) == 0x17);
    } else if k == 130 {
        assert(gf256_gpow(130) == 0x2e);
    } else if k == 131 {
        assert(gf256_gpow(131) == 0x5c);
    } else if k == 132 {
        assert(gf256_gpow(132) == 0xb8);
    } else if k == 133 {
        assert(gf256_gpow(133) == 0x6d);
    } else if k == 134 {
        assert(gf256_gpow(134) == 0xda);
    } else if k == 135 {
        assert(gf256_gpow(135) == 0xa9);
    } else if k == 136 {
        assert(gf256_gpow(136) == 0x4f);
    } else if k == 137 {
        assert(gf256_gpow(137) == 0x9e);
    } else if k == 138 {
        assert(gf256_gpow(138) == 0x21);
    } else if k == 139 {
        assert(gf256_gpow(139) == 0x42);
    } else if k == 140 {
        assert(gf256_gpow(140) == 0x84);
    } else if k == 141 {
        assert(gf256_gpow(141) == 0x15);
    } else if k == 142 {
        assert(gf256_gpow(142) == 0x2a);
    } else if k == 143 {
        assert(gf256_gpow(143) == 0x54);
    } else if k == 144 {
        assert(gf256_gpow(144) == 0xa8);
    } else if k == 145 {
        assert(gf256_gpow(145) == 0x4d);
    } else if k == 146 {
        assert(gf256_gpow(146) == 0x9a);
    } else if k == 147 {
        assert(gf256_gpow(147) == 0x29);
    } else if k == 148 {
        assert(gf256_gpow(148) == 0x52);
    } else if k == 149 {
        assert(gf256_gpow(149) == 0xa4);
    } else if k == 150 {
        assert(gf256_gpow(150) == 0x55);
    } else if k == 151 {
        assert(gf256_gpow(151) == 0xaa);
    } else if k == 152 {
        assert(gf256_gpow(152) == 0x49);
    } else if k == 153 {
        assert(gf256_gpow(153) == 0x92);
    } else if k == 154 {
        assert(gf256_gpow(154) == 0x39);
    } else if k == 155 {
        assert(gf256_gpow(155) == 0x72);
    } else if k == 156 {
        assert(gf256_gpow(156) == 0xe4);
    } else if k == 157 {
        assert(gf256_gpow(157) == 0xd5);
    } else if k == 158 {
        assert(gf256_gpow(158) == 0xb7);
    } else if k == 159 {
        assert(gf256_gpow(159) == 0x73);
    }
}

/// The logarithms of the powers `0x2^160` to `0x2^191` in `gf256`.
#[verifier::rlimit(40)]
proof fn gf256_log_pow_part_5(k: nat)
    requires
        160 <= k < 192,
    ensures
        gf256_log(gf256_gpow(k)) == k,
{
    gf256_powers_0();
    gf256_powers_1();
    gf256_powers_2();
    gf256_powers_3();
    gf256_powers_4();
    gf256_powers_5();
    gf256_powers_6();
    gf256_powers_7();
    gf256_powers_8();
    gf256_powers_9();
    gf256_powers_10();
    gf256_powers_11();
    gf256_powers_12();
    gf256_powers_13();
    gf256_powers_14();
    gf256_powers_15();
    if k == 160 {
        assert(gf256_gpow(160) == 0xe6);
    } else if k == 161 {
        assert(gf256_gpow(161) == 0xd1);
    } else if k == 162 {
        assert(gf256_gpow(162) == 0xbf);
    } else if k == 163 {
        assert(gf256_gpow(163) == 0x63);
    } else if k == 164 {
        assert(gf256_gpow(164) == 0xc6);
    } else if k == 165 {
        assert(gf256_gpow(165) == 0x91);
    } else if k == 166 {
        assert(gf256_gpow(166) == 0x3f);
    } else if k == 167 {
        assert(gf256_gpow(167) == 0x7e);
    } else if k == 168 {
        assert(gf256_gpow(168) == 0xfc);
    } else if k == 169 {
        assert(gf256_gpow(169) == 0xe5);
    } else if k == 170 {
        assert(gf256_gpow(170) == 0xd7);
    } else if k == 171 {
        assert(gf256_gpow(171) == 0xb3);
    } else if k == 172 {
        assert(gf256_gpow(172) == 0x7b);
    } else if k == 173 {
        assert(gf256_gpow(173) == 0xf6);
    } else if k == 174 {
        assert(gf256_gpow(174) == 0xf1);
    } else if k == 175 {
        assert(gf256_gpow(175) == 0xff);
    } else if k == 176 {
        assert(gf256_gpow(176) == 0xe3);
    } else if k == 177 {
        assert(gf256_gpow(177) == 0xdb);
    } else if k == 178 {
        assert(gf256_gpow(178) == 0xab);
    } else if k == 179 {
        assert(gf256_gpow(179) == 0x4b);
    } else if k == 180 {
        assert(gf256_gpow(180) == 0x96);
    } else if k == 181 {
        assert(gf256_gpow(181) == 0x31);
    } else if k == 182 {
        assert(gf256_gpow(182) == 0x62);
    } else if k == 183 {
        assert(gf256_gpow(183) == 0xc4);
    } else if k == 184 {
        assert(gf256_gpow(184) == 0x95);
    } else if k == 185 {
        assert(gf256_gpow(185) == 0x37);
    } else if k == 186 {
        assert(gf256_gpow(186) == 0x6e);
    } else if k == 187 {
        assert(gf256_gpow(187) == 0xdc);
    } else if k == 188 {
        assert(gf256_gpow(188) == 0xa5);
    } else if k == 189 {
        assert(gf256_gpow(189) == 0x57);
    } else if k == 190 {
        assert(gf256_gpow(190) == 0xae);
    } else if k == 191 {
        assert(gf256_gpow(191) == 0x41);
    }
}

/// The logarithms of the powers `0x2^192` to `0x2^223` in `gf256`.
#[verifier::rlimit(40)]
proof fn gf256_log_pow_part_6(k: nat)
    requires
        192 <= k < 224,
    ensures
        gf256_log(gf256_gpow(k)) == k,
{
    gf256_powers_0();
    gf256_powers_1();
    gf256_powers_2();
    gf256_powers_3();
    gf256_powers_4();
    gf256_powers_5();
    gf256_powers_6();
    gf256_powers_7();
    gf256_powers_8();
    gf256_powers_9();
    gf256_powers_10();
    gf256_powers_11();
    gf256_powers_12();
    gf256_powers_13();
    gf256_powers_14();
    gf256_powers_15();
    if k == 192 {
        assert(gf256_gpow(192) == 0x82);
    } else if k == 193 {
        assert(gf256_gpow(193) == 0x19);
    } else if k == 194 {
        assert(gf256_gpow(194) == 0x32);
    } else if k == 195 {
        assert(gf256_gpow(195) == 0x64);
    } else if k == 196 {
        assert(gf256_gpow(196) == 0xc8);
    } else if k == 197 {
        assert(gf256_gpow(197) == 0x8d);
    } else if k == 198 {
        assert(gf256_gpow(198) == 0x7);
    } else if k == 199 {
        assert(gf256_gpow(199) == 0xe);
    } else if k == 200 {
        assert(gf256_gpow(200) == 0x1c);
    } else if k == 201 {
        assert(gf256_gpow(201) == 0x38);
    } else if k == 202 {
        assert(gf256_gpow(202) == 0x70);
    } else if k == 203 {
        assert(gf256_gpow(203) == 0xe0);
    } else if k == 204 {
        assert(gf256_gpow(204) == 0xdd);
    } else if k == 205 {
        assert(gf256_gpow(205) == 0xa7);
    } else if k == 206 {
        assert(gf256_gpow(206) == 0x53);
    } else if k == 207 {
        assert(gf256_gpow(207) == 0xa6);
    } else if k == 208 {
        assert(gf256_gpow(208) == 0x51);
    } else if k == 209 {
        assert(gf256_gpow(209) == 0xa2);
    } else if k == 210 {
        assert(gf256_gpow(210) == 0x59);
    } else if k == 211 {
        assert(gf256_gpow(211) == 0xb2);
    } else if k == 212 {
        assert(gf256_gpow(212) == 0x79);
    } else if k == 213 {
        assert(gf256_gpow(213) == 0xf2);
    } else if k == 214 {
        assert(gf256_gpow(214) == 0xf9);
    } else if k == 215 {
        assert(gf256_gpow(215) == 0xef);
    } else if k == 216 {
        assert(gf256_gpow(216) == 0xc3);
    } else if k == 217 {
        assert(gf256_gpow(217) == 0x9b);
    } else if k == 218 {
        assert(gf256_gpow(218) == 0x2b);
    } else if k == 219 {
        assert(gf256_gpow(219) == 0x56);
    } else if k == 220 {
        assert(gf256_gpow(220) == 0xac);
    } else if k == 221 {
        assert(gf256_gpow(221) == 0x45);
    } else if k == 222 {
        assert(gf256_gpow(222) == 0x8a);
    } else if k == 223 {
        assert(gf256_gpow(223) == 0x9);
    }
}

/// The logarithms of the powers `0x2^224` to `0x2^254` in `gf256`.
#[verifier::rlimit(40)]
proof fn gf256_log_pow_part_7(k: nat)
    requires
        224 <= k < 255,
    ensures
        gf256_log(gf256_gpow(k)) == k,
{
    gf256_powers_0();
    gf256_powers_1();
    gf256_powers_2();
    gf256_powers_3();
    gf256_powers_4();
    gf256_powers_5();
    gf256_powers_6();
    gf256_powers_7();
    gf256_powers_8();
    gf256_powers_9();
    gf256_powers_10();
    gf256_powers_11();
    gf256_powers_12();
    gf256_powers_13();
    gf256_powers_14();
    gf256_powers_15();
    if k == 224 {
        assert(gf256_gpow(224) == 0x12);
    } else if k == 225 {
        assert(gf256_gpow(225) == 0x24);
    } else if k == 226 {
        assert(gf256_gpow(226) == 0x48);
    } else if k == 227 {
        assert(gf256_gpow(227) == 0x90);
    } else if k == 228 {
        assert(gf256_gpow(228) == 0x3d);
    } else if k == 229 {
        assert(gf256_gpow(229) == 0x7a);
    } else if k == 230 {
        assert(gf256_gpow(230) == 0xf4);
    } else if k == 231 {
        assert(gf256_gpow(231) == 0xf5);
    } else if k == 232 {
        assert(gf256_gpow(232) == 0xf7);
    } else if k == 233 {
        assert(gf256_gpow(233) == 0xf3);
    } else if k == 234 {
        assert(gf256_gpow(234) == 0xfb);
    } else if k == 235 {
        assert(gf256_gpow(235) == 0xeb);
    } else if k == 236 {
        assert(gf256_gpow(236) == 0xcb);
    } else if k == 237 {
        assert(gf256_gpow(237) == 0x8b);
    } else if k == 238 {
        assert(gf256_gpow(238) == 0xb);
    } else if k == 239 {
        assert(gf256_gpow(239) == 0x16);
    } else if k == 240 {
        assert(gf256_gpow(240) == 0x2c);
    } else if k == 241 {
        assert(gf256_gpow(241) == 0x58);
    } else if k == 242 {
        assert(gf256_gpow(242) == 0xb0);
    } else if k == 243 {
        assert(gf256_gpow(243) == 0x7d);
    } else if k == 244 {
        assert(gf256_gpow(244) == 0xfa);
    } else if k == 245 {
        assert(gf256_gpow(245) == 0xe9);
    } else if k == 246 {
        assert(gf256_gpow(246) == 0xcf);
    } else if k == 247 {
        assert(gf256_gpow(247) == 0x83);
    } else if k == 248 {
        assert(gf256_gpow(248) == 0x1b);
    } else if k == 249 {
        assert(gf256_gpow(249) == 0x36);
    } else if k == 250 {
        assert(gf256_gpow(250) == 0x6c);
    } else if k == 251 {
        assert(gf256_gpow(251) == 0xd8);
    } else if k == 252 {
        assert(gf256_gpow(252) == 0xad);
    } else if k == 253 {
        assert(gf256_gpow(253) == 0x47);
    } else if k == 254 {
        assert(gf256_gpow(254) == 0x8e);
    }
}

/// The logarithm of a power of the generator below `255` is its exponent.
pub proof fn lemma_gf256_log_of_power(k: nat)
    requires
        k < 255,
    ensures
        gf256_log(powmod(0x2, k, 0x11d)) == k,
{
    reveal(gf256_gpow);
    if k < 32 {
        gf256_log_pow_part_0(k);
    } else if k < 64 {
        gf256_log_pow_part_1(k);
    } else if k < 96 {
        gf256_log_pow_part_2(k);
    } else if k < 128 {
        gf256_log_pow_part_3(k);
    } else if k < 160 {
        gf256_log_pow_part_4(k);
    } else if k < 192 {
        gf256_log_pow_part_5(k);
    } else if k < 224 {
        gf256_log_pow_part_6(k);
    } else {
        gf256_log_pow_part_7(k);
    }
}

/// The powers of the generator below `255` are non-zero and distinct.
#[verifier::rlimit(40)]
pub proof fn lemma_gf256_powers(x: nat, y: nat)
    requires
        x < 255,
        y < 255,
    ensures
        x != y ==> powmod(0x2, x, 0x11d) != powmod(0x2, y, 0x11d),
        powmod(0x2, x, 0x11d) != 0,
{
    lemma_gf256_log_of_power(x);
    lemma_gf256_log_of_power(y);
    gf256_powers_0();
    reveal(gf256_gpow);
    assert(gf256_log(0) == 0);
}

/// The squares of the powers of the generator below `255` are distinct.
#[verifier::rlimit(60)]
pub proof fn lemma_gf256_square_powers(x: nat, y: nat)
    requires
        x < 255,
        y < 255,
        x != y,
    ensures
        powmod(powmod(0x2, x, 0x11d), 2, 0x11d) != powmod(powmod(0x2, y, 0x11d), 2, 0x11d),
{
    assert(bitlen(0x11d) == 9) by {
        reveal_with_fuel(bitlen, 11);
    }
    gf256_generator_order();
    lemma_powmod_pow(0x2, x, 2, 0x11d);
    lemma_powmod_pow(0x2, y, 2, 0x11d);
    let ex: nat = if x * 2 >= 255 { (x * 2 - 255) as nat } else { x * 2 };
    let ey: nat = if y * 2 >= 255 { (y * 2 - 255) as nat } else { y * 2 };
    if x * 2 >= 255 {
        lemma_powmod_period(0x2, x * 2, 255, 0x11d, 8);
    }
    if y * 2 >= 255 {
        lemma_powmod_period(0x2, y * 2, 255, 0x11d, 8);
    }
    lemma_gf256_powers(ex, ey);
}

/// Every non-zero `b` of `gf256` satisfies `b^255 == 1`.
pub proof fn lemma_gf256_order(b: nat)
    requires
        0 < b < 0x100,
    ensures
        powmod(b, 255, 0x11d) == 1,
{
    lemma_gf256_log(b);
    gf256_powers_0();
    gf256_powers_1();
    gf256_powers_2();
    gf256_powers_3();
    gf256_powers_4();
    gf256_powers_5();
    gf256_powers_6();
    gf256_powers_7();
    gf256_powers_8();
    gf256_powers_9();
    gf256_powers_10();
    gf256_powers_11();
    gf256_powers_12();
    gf256_powers_13();
    gf256_powers_14();
    gf256_powers_15();
    reveal(gf256_gpow);
    assert(bitlen(0x11d) == 9) by {
        reveal_with_fuel(bitlen, 11);
    }
    lemma_power_of_generator(0x2, gf256_log(b), 255, 0x11d, 8);
}

/// The exclusive ors that the walk through the powers of `gf256_rijndael`'s generator meets.
proof fn gf256_rijndael_xor_facts()
    by (bit_vector)
    ensures
        0x1u128 ^ 0x2u128 == 0x3u128,
        0x2u128 ^ 0x4u128 == 0x6u128,
        0x3u128 ^ 0x6u128 == 0x5u128,
        0x4u128 ^ 0x8u128 == 0xcu128,
        0x5u128 ^ 0xau128 == 0xfu128,
        0x6u128 ^ 0xcu128 == 0xau128,
        0x7u128 ^ 0xeu128 == 0x9u128,
        0x8u128 ^ 0x10u128 == 0x18u128,
        0x9u128 ^ 0x12u128 == 0x1bu128,
        0xau128 ^ 0x14u128 == 0x1eu128,
        0xbu128 ^ 0x16u128 == 0x1du128,
        0xcu128 ^ 0x18u128 == 0x14u128,
        0xdu128 ^ 0x1au128 == 0x17u128,
        0xeu128 ^ 0x1cu128 == 0x12u128,
        0xfu128 ^ 0x1eu128 == 0x11u128,
        0x10u128 ^ 0x20u128 == 0x30u128,
        0x11u128 ^ 0x22u128 == 0x33u128,
        0x12u128 ^ 0x24u128 == 0x36u128,
        0x13u128 ^ 0x26u128 == 0x35u128,
        0x14u128 ^ 0x28u128 == 0x3cu128,
        0x15u128 ^ 0x2au128 == 0x3fu128,
        0x16u128 ^ 0x2cu128 == 0x3au128,
        0x17u128 ^ 0x2eu128 == 0x39u128,
        0x18u128 ^ 0x30u128 == 0x28u128,
        0x19u128 ^ 0x32u128 == 0x2bu128,
        0x1au128 ^ 0x34u128 == 0x2eu128,
        0x1bu128 ^ 0x36u128 == 0x2du128,
        0x1cu128 ^ 0x38u128 == 0x24u128,
        0x1du128 ^ 0x3au128 == 0x27u128,
        0x1eu128 ^ 0x3cu128 == 0x22u128,
        0x1fu128 ^ 0x3eu128 == 0x21u128,
        0x20u128 ^ 0x40u128 == 0x60u128,
        0x21u128 ^ 0x42u128 == 0x63u128,
        0x22u128 ^ 0x44u128 == 0x66u128,
        0x23u128 ^ 0x46u128 == 0x65u128,
        0x24u128 ^ 0x48u128 == 0x6cu128,
        0x25u128 ^ 0x4au128 == 0x6fu128,
        0x26u128 ^ 0x4cu128 == 0x6au128,
        0x27u128 ^ 0x4eu128 == 0x69u128,
        0x28u128 ^ 0x50u128 == 0x78u128,
        0x29u128 ^ 0x52u128 == 0x7bu128,
        0x2au128 ^ 0x54u128 == 0x7eu128,
        0x2bu128 ^ 0x56u128 == 0x7du128,
        0x2cu128 ^ 0x58u128 == 0x74u128,
        0x2du128 ^ 0x5au128 == 0x77u128,
        0x2eu128 ^ 0x5cu128 == 0x72u128,
        0x2fu128 ^ 0x5eu128 == 0x71u128,
        0x30u128 ^ 0x60u128 == 0x50u128,
        0x31u128 ^ 0x62u128 == 0x53u128,
        0x32u128 ^ 0x64u128 == 0x56u128,
        0x33u128 ^ 0x66u128 == 0x55u128,
        0x34u128 ^ 0x68u128 == 0x5cu128,
        0x35u128 ^ 0x6au128 == 0x5fu128,
        0x36u128 ^ 0x6cu128 == 0x5au128,
        0x37u128 ^ 0x6eu128 == 0x59u128,
        0x38u128 ^ 0x70u128 == 0x48u128,
        0x39u128 ^ 0x72u128 == 0x4bu128,
        0x3au128 ^ 0x74u128 == 0x4eu128,
        0x3bu128 ^ 0x76u128 == 0x4du128,
        0x3cu128 ^ 0x78u128 == 0x44u128,
        0x3du128 ^ 0x7au128 == 0x47u128,
        0x3eu128 ^ 0x7cu128 == 0x42u128,
        0x3fu128 ^ 0x7eu128 == 0x41u128,
        0x40u128 ^ 0x80u128 == 0xc0u128,
        0x41u128 ^ 0x82u128 == 0xc3u128,
        0x42u128 ^ 0x84u128 == 0xc6u128,
        0x43u128 ^ 0x86u128 == 0xc5u128,
        0x44u128 ^ 0x88u128 == 0xccu128,
        0x45u128 ^ 0x8au128 == 0xcfu128,
        0x46u128 ^ 0x8cu128 == 0xcau128,
        0x47u128 ^ 0x8eu128 == 0xc9u128,
        0x48u128 ^ 0x90u128 == 0xd8u128,
        0x49u128 ^ 0x92u128 == 0xdbu128,
        0x4au128 ^ 0x94u128 == 0xdeu128,
        0x4bu128 ^ 0x96u128 == 0xddu128,
        0x4cu128 ^ 0x98u128 == 0xd4u128,
        0x4du128 ^ 0x9au128 == 0xd7u128,
        0x4eu128 ^ 0x9cu128 == 0xd2u128,
        0x4fu128 ^ 0x9eu128 == 0xd1u128,
        0x50u128 ^ 0xa0u128 == 0xf0u128,
        0x51u128 ^ 0xa2u128 == 0xf3u128,
        0x52u128 ^ 0xa4u128 == 0xf6u128,
        0x53u128 ^ 0xa6u128 == 0xf5u128,
        0x54u128 ^ 0xa8u128 == 0xfcu128,
        0x55u128 ^ 0xaau128 == 0xffu128,
        0x56u128 ^ 0xacu128 == 0xfau128,
        0x57u128 ^ 0xaeu128 == 0xf9u128,
        0x58u128 ^ 0xb0u128 == 0xe8u128,
        0x59u128 ^ 0xb2u128 == 0xebu128,
        0x5au128 ^ 0xb4u128 == 0xeeu128,
        0x5bu128 ^ 0xb6u128 == 0xedu128,
        0x5cu128 ^ 0xb8u128 == 0xe4u128,
        0x5du128 ^ 0xbau128 == 0xe7u128,
        0x5eu128 ^ 0xbcu128 == 0xe2u128,
        0x5fu128 ^ 0xbeu128 == 0xe1u128,
        0x60u128 ^ 0xc0u128 == 0xa0u128,
        0x61u128 ^ 0xc2u128 == 0xa3u128,
        0x62u128 ^ 0xc4u128 == 0xa6u128,
        0x63u128 ^ 0xc6u128 == 0xa5u128,
        0x64u128 ^ 0xc8u128 == 0xacu128,
        0x65u128 ^ 0xcau128 == 0xafu128,
        0x66u128 ^ 0xccu128 == 0xaau128,
        0x67u128 ^ 0xceu128 == 0xa9u128,
        0x68u128 ^ 0xd0u128 == 0xb8u128,
        0x69u128 ^ 0xd2u128 == 0xbbu128,
        0x6au128 ^ 0xd4u128 == 0xbeu128,
        0x6bu128 ^ 0xd6u128 == 0xbdu128,
        0x6cu128 ^ 0xd8u128 == 0xb4u128,
        0x6du128 ^ 0xdau128 == 0xb7u128,
        0x6eu128 ^ 0xdcu128 == 0xb2u128,
        0x6fu128 ^ 0xdeu128 == 0xb1u128,
        0x70u128 ^ 0xe0u128 == 0x90u128,
        0x71u128 ^ 0xe2u128 == 0x93u128,
        0x72u128 ^ 0xe4u128 == 0x96u128,
        0x73u128 ^ 0xe6u128 == 0x95u128,
        0x74u128 ^ 0xe8u128 == 0x9cu128,
        0x75u128 ^ 0xeau128 == 0x9fu128,
        0x76u128 ^ 0xecu128 == 0x9au128,
        0x77u128 ^ 0xeeu128 == 0x99u128,
        0x78u128 ^ 0xf0u128 == 0x88u128,
        0x79u128 ^ 0xf2u128 == 0x8bu128,
        0x7au128 ^ 0xf4u128 == 0x8eu128,
        0x7bu128 ^ 0xf6u128 == 0x8du128,
        0x7cu128 ^ 0xf8u128 == 0x84u128,
        0x7du128 ^ 0xfau128 == 0x87u128,
        0x7eu128 ^ 0xfcu128 == 0x82u128,
        0x7fu128 ^ 0xfeu128 == 0x81u128,
        0x80u128 ^ 0x1bu128 == 0x9bu128,
        0x81u128 ^ 0x19u128 == 0x98u128,
        0x82u128 ^ 0x1fu128 == 0x9du128,
        0x83u128 ^ 0x1du128 == 0x9eu128,
        0x84u128 ^ 0x13u128 == 0x97u128,
        0x85u128 ^ 0x11u128 == 0x94u128,
        0x86u128 ^ 0x17u128 == 0x91u128,
        0x87u128 ^ 0x15u128 == 0x92u128,
        0x88u128 ^ 0xbu128 == 0x83u128,
        0x89u128 ^ 0x9u128 == 0x80u128,
        0x8au128 ^ 0xfu128 == 0x85u128,
        0x8bu128 ^ 0xdu128 == 0x86u128,
        0x8cu128 ^ 0x3u128 == 0x8fu128,
        0x8du128 ^ 0x1u128 == 0x8cu128,
        0x8eu128 ^ 0x7u128 == 0x89u128,
        0x8fu128 ^ 0x5u128 == 0x8au128,
        0x90u128 ^ 0x3bu128 == 0xabu128,
        0x91u128 ^ 0x39u128 == 0xa8u128,
        0x92u128 ^ 0x3fu128 == 0xadu128,
        0x93u128 ^ 0x3du128 == 0xaeu128,
        0x94u128 ^ 0x33u128 == 0xa7u128,
        0x95u128 ^ 0x31u128 == 0xa4u128,
        0x96u128 ^ 0x37u128 == 0xa1u128,
        0x97u128 ^ 0x35u128 == 0xa2u128,
        0x98u128 ^ 0x2bu128 == 0xb3u128,
        0x99u128 ^ 0x29u128 == 0xb0u128,
        0x9au128 ^ 0x2fu128 == 0xb5u128,
        0x9bu128 ^ 0x2du128 == 0xb6u128,
        0x9cu128 ^ 0x23u128 == 0xbfu128,
        0x9du128 ^ 0x21u128 == 0xbcu128,
        0x9eu128 ^ 0x27u128 == 0xb9u128,
        0x9fu128 ^ 0x25u128 == 0xbau128,
        0xa0u128 ^ 0x5bu128 == 0xfbu128,
        0xa1u128 ^ 0x59u128 == 0xf8u128,
        0xa2u128 ^ 0x5fu128 == 0xfdu128,
        0xa3u128 ^ 0x5du128 == 0xfeu128,
        0xa4u128 ^ 0x53u128 == 0xf7u128,
        0xa5u128 ^ 0x51u128 == 0xf4u128,
        0xa6u128 ^ 0x57u128 == 0xf1u128,
        0xa7u128 ^ 0x55u128 == 0xf2u128,
        0xa8u128 ^ 0x4bu128 == 0xe3u128,
        0xa9u128 ^ 0x49u128 == 0xe0u128,
        0xaau128 ^ 0x4fu128 == 0xe5u128,
        0xabu128 ^ 0x4du128 == 0xe6u128,
        0xacu128 ^ 0x43u128 == 0xefu128,
        0xadu128 ^ 0x41u128 == 0xecu128,
        0xaeu128 ^ 0x47u128 == 0xe9u128,
        0xafu128 ^ 0x45u128 == 0xeau128,
        0xb0u128 ^ 0x7bu128 == 0xcbu128,
        0xb1u128 ^ 0x79u128 == 0xc8u128,
        0xb2u128 ^ 0x7fu128 == 0xcdu128,
        0xb3u128 ^ 0x7du128 == 0xceu128,
        0xb4u128 ^ 0x73u128 == 0xc7u128,
        0xb5u128 ^ 0x71u128 == 0xc4u128,
        0xb6u128 ^ 0x77u128 == 0xc1u128,
        0xb7u128 ^ 0x75u128 == 0xc2u128,
        0xb8u128 ^ 0x6bu128 == 0xd3u128,
        0xb9u128 ^ 0x69u128 == 0xd0u128,
        0xbau128 ^ 0x6fu128 == 0xd5u128,
        0xbbu128 ^ 0x6du128 == 0xd6u128,
        0xbcu128 ^ 0x63u128 == 0xdfu128,
        0xbdu128 ^ 0x61u128 == 0xdcu128,
        0xbeu128 ^ 0x67u128 == 0xd9u128,
        0xbfu128 ^ 0x65u128 == 0xdau128,
        0xc0u128 ^ 0x9bu128 == 0x5bu128,
        0xc1u128 ^ 0x99u128 == 0x58u128,
        0xc2u128 ^ 0x9fu128 == 0x5du128,
        0xc3u128 ^ 0x9du128 == 0x5eu128,
        0xc4u128 ^ 0x93u128 == 0x57u128,
        0xc5u128 ^ 0x91u128 == 0x54u128,
        0xc6u128 ^ 0x97u128 == 0x51u128,
        0xc7u128 ^ 0x95u128 == 0x52u128,
        0xc8u128 ^ 0x8bu128 == 0x43u128,
        0xc9u128 ^ 0x89u128 == 0x40u128,
        0xcau128 ^ 0x8fu128 == 0x45u128,
        0xcbu128 ^ 0x8du128 == 0x46u128,
        0xccu128 ^ 0x83u128 == 0x4fu128,
        0xcdu128 ^ 0x81u128 == 0x4cu128,
        0xceu128 ^ 0x87u128 == 0x49u128,
        0xcfu128 ^ 0x85u128 == 0x4au128,
        0xd0u128 ^ 0xbbu128 == 0x6bu128,
        0xd1u128 ^ 0xb9u128 == 0x68u128,
        0xd2u128 ^ 0xbfu128 == 0x6du128,
        0xd3u128 ^ 0xbdu128 == 0x6eu128,
        0xd4u128 ^ 0xb3u128 == 0x67u128,
        0xd5u128 ^ 0xb1u128 == 0x64u128,
        0xd6u128 ^ 0xb7u128 == 0x61u128,
        0xd7u128 ^ 0xb5u128 == 0x62u128,
        0xd8u128 ^ 0xabu128 == 0x73u128,
        0xd9u128 ^ 0xa9u128 == 0x70u128,
        0xdau128 ^ 0xafu128 == 0x75u128,
        0xdbu128 ^ 0xadu128 == 0x76u128,
        0xdcu128 ^ 0xa3u128 == 0x7fu128,
        0xddu128 ^ 0xa1u128 == 0x7cu128,
        0xdeu128 ^ 0xa7u128 == 0x79u128,
        0xdfu128 ^ 0xa5u128 == 0x7au128,
        0xe0u128 ^ 0xdbu128 == 0x3bu128,
        0xe1u128 ^ 0xd9u128 == 0x38u128,
        0xe2u128 ^ 0xdfu128 == 0x3du128,
        0xe3u128 ^ 0xddu128 == 0x3eu128,
        0xe4u128 ^ 0xd3u128 == 0x37u128,
        0xe5u128 ^ 0xd1u128 == 0x34u128,
        0xe6u128 ^ 0xd7u128 == 0x31u128,
        0xe7u128 ^ 0xd5u128 == 0x32u128,
        0xe8u128 ^ 0xcbu128 == 0x23u128,
        0xe9u128 ^ 0xc9u128 == 0x20u128,
        0xeau128 ^ 0xcfu128 == 0x25u128,
        0xebu128 ^ 0xcdu128 == 0x26u128,
        0xecu128 ^ 0xc3u128 == 0x2fu128,
        0xedu128 ^ 0xc1u128 == 0x2cu128,
        0xeeu128 ^ 0xc7u128 == 0x29u128,
        0xefu128 ^ 0xc5u128 == 0x2au128,
        0xf0u128 ^ 0xfbu128 == 0xbu128,
        0xf1u128 ^ 0xf9u128 == 0x8u128,
        0xf2u128 ^ 0xffu128 == 0xdu128,
        0xf3u128 ^ 0xfdu128 == 0xeu128,
        0xf4u128 ^ 0xf3u128 == 0x7u128,
        0xf5u128 ^ 0xf1u128 == 0x4u128,
        0xf6u128 ^ 0xf7u128 == 0x1u128,
        0xf7u128 ^ 0xf5u128 == 0x2u128,
        0xf8u128 ^ 0xebu128 == 0x13u128,
        0xf9u128 ^ 0xe9u128 == 0x10u128,
        0xfau128 ^ 0xefu128 == 0x15u128,
        0xfbu128 ^ 0xedu128 == 0x16u128,
        0xfcu128 ^ 0xe3u128 == 0x1fu128,
        0xfdu128 ^ 0xe1u128 == 0x1cu128,
        0xfeu128 ^ 0xe7u128 == 0x19u128,
        0xffu128 ^ 0xe5u128 == 0x1au128,
        0x100u128 ^ 0x11bu128 == 0x1bu128,
        0x102u128 ^ 0x11bu128 == 0x19u128,
        0x104u128 ^ 0x11bu128 == 0x1fu128,
        0x106u128 ^ 0x11bu128 == 0x1du128,
        0x108u128 ^ 0x11bu128 == 0x13u128,
        0x10au128 ^ 0x11bu128 == 0x11u128,
        0x10cu128 ^ 0x11bu128 == 0x17u128,
        0x10eu128 ^ 0x11bu128 == 0x15u128,
        0x110u128 ^ 0x11bu128 == 0xbu128,
        0x112u128 ^ 0x11bu128 == 0x9u128,
        0x114u128 ^ 0x11bu128 == 0xfu128,
        0x116u128 ^ 0x11bu128 == 0xdu128,
        0x118u128 ^ 0x11bu128 == 0x3u128,
        0x11au128 ^ 0x11bu128 == 0x1u128,
        0x11cu128 ^ 0x11bu128 == 0x7u128,
        0x11eu128 ^ 0x11bu128 == 0x5u128,
        0x120u128 ^ 0x11bu128 == 0x3bu128,
        0x122u128 ^ 0x11bu128 == 0x39u128,
        0x124u128 ^ 0x11bu128 == 0x3fu128,
        0x126u128 ^ 0x11bu128 == 0x3du128,
        0x128u128 ^ 0x11bu128 == 0x33u128,
        0x12au128 ^ 0x11bu128 == 0x31u128,
        0x12cu128 ^ 0x11bu128 == 0x37u128,
        0x12eu128 ^ 0x11bu128 == 0x35u128,
        0x130u128 ^ 0x11bu128 == 0x2bu128,
        0x132u128 ^ 0x11bu128 == 0x29u128,
        0x134u128 ^ 0x11bu128 == 0x2fu128,
        0x136u128 ^ 0x11bu128 == 0x2du128,
        0x138u128 ^ 0x11bu128 == 0x23u128,
        0x13au128 ^ 0x11bu128 == 0x21u128,
        0x13cu128 ^ 0x11bu128 == 0x27u128,
        0x13eu128 ^ 0x11bu128 == 0x25u128,
        0x140u128 ^ 0x11bu128 == 0x5bu128,
        0x142u128 ^ 0x11bu128 == 0x59u128,
        0x144u128 ^ 0x11bu128 == 0x5fu128,
        0x146u128 ^ 0x11bu128 == 0x5du128,
        0x148u128 ^ 0x11bu128 == 0x53u128,
        0x14au128 ^ 0x11bu128 == 0x51u128,
        0x14cu128 ^ 0x11bu128 == 0x57u128,
        0x14eu128 ^ 0x11bu128 == 0x55u128,
        0x150u128 ^ 0x11bu128 == 0x4bu128,
        0x152u128 ^ 0x11bu128 == 0x49u128,
        0x154u128 ^ 0x11bu128 == 0x4fu128,
        0x156u128 ^ 0x11bu128 == 0x4du128,
        0x158u128 ^ 0x11bu128 == 0x43u128,
        0x15au128 ^ 0x11bu128 == 0x41u128,
        0x15cu128 ^ 0x11bu128 == 0x47u128,
        0x15eu128 ^ 0x11bu128 == 0x45u128,
        0x160u128 ^ 0x11bu128 == 0x7bu128,
        0x162u128 ^ 0x11bu128 == 0x79u128,
        0x164u128 ^ 0x11bu128 == 0x7fu128,
        0x166u128 ^ 0x11bu128 == 0x7du128,
        0x168u128 ^ 0x11bu128 == 0x73u128,
        0x16au128 ^ 0x11bu128 == 0x71u128,
        0x16cu128 ^ 0x11bu128 == 0x77u128,
        0x16eu128 ^ 0x11bu128 == 0x75u128,
        0x170u128 ^ 0x11bu128 == 0x6bu128,
        0x172u128 ^ 0x11bu128 == 0x69u128,
        0x174u128 ^ 0x11bu128 == 0x6fu128,
        0x176u128 ^ 0x11bu128 == 0x6du128,
        0x178u128 ^ 0x11bu128 == 0x63u128,
        0x17au128 ^ 0x11bu128 == 0x61u128,
        0x17cu128 ^ 0x11bu128 == 0x67u128,
        0x17eu128 ^ 0x11bu128 == 0x65u128,
        0x180u128 ^ 0x11bu128 == 0x9bu128,
        0x182u128 ^ 0x11bu128 == 0x99u128,
        0x184u128 ^ 0x11bu128 == 0x9fu128,
        0x186u128 ^ 0x11bu128 == 0x9du128,
        0x188u128 ^ 0x11bu128 == 0x93u128,
        0x18au128 ^ 0x11bu128 == 0x91u128,
        0x18cu128 ^ 0x11bu128 == 0x97u128,
        0x18eu128 ^ 0x11bu128 == 0x95u128,
        0x190u128 ^ 0x11bu128 == 0x8bu128,
        0x192u128 ^ 0x11bu128 == 0x89u128,
        0x194u128 ^ 0x11bu128 == 0x8fu128,
        0x196u128 ^ 0x11bu128 == 0x8du128,
        0x198u128 ^ 0x11bu128 == 0x83u128,
        0x19au128 ^ 0x11bu128 == 0x81u128,
        0x19cu128 ^ 0x11bu128 == 0x87u128,
        0x19eu128 ^ 0x11bu128 == 0x85u128,
        0x1a0u128 ^ 0x11bu128 == 0xbbu128,
        0x1a2u128 ^ 0x11bu128 == 0xb9u128,
        0x1a4u128 ^ 0x11bu128 == 0xbfu128,
        0x1a6u128 ^ 0x11bu128 == 0xbdu128,
        0x1a8u128 ^ 0x11bu128 == 0xb3u128,
        0x1aau128 ^ 0x11bu128 == 0xb1u128,
        0x1acu128 ^ 0x11bu128 == 0xb7u128,
        0x1aeu128 ^ 0x11bu128 == 0xb5u128,
        0x1b0u128 ^ 0x11bu128 == 0xabu128,
        0x1b2u128 ^ 0x11bu128 == 0xa9u128,
        0x1b4u128 ^ 0x11bu128 == 0xafu128,
        0x1b6u128 ^ 0x11bu128 == 0xadu128,
        0x1b8u128 ^ 0x11bu128 == 0xa3u128,
        0x1bau128 ^ 0x11bu128 == 0xa1u128,
        0x1bcu128 ^ 0x11bu128 == 0xa7u128,
        0x1beu128 ^ 0x11bu128 == 0xa5u128,
        0x1c0u128 ^ 0x11bu128 == 0xdbu128,
        0x1c2u128 ^ 0x11bu128 == 0xd9u128,
        0x1c4u128 ^ 0x11bu128 == 0xdfu128,
        0x1c6u128 ^ 0x11bu128 == 0xddu128,
        0x1c8u128 ^ 0x11bu128 == 0xd3u128,
        0x1cau128 ^ 0x11bu128 == 0xd1u128,
        0x1ccu128 ^ 0x11bu128 == 0xd7u128,
        0x1ceu128 ^ 0x11bu128 == 0xd5u128,
        0x1d0u128 ^ 0x11bu128 == 0xcbu128,
        0x1d2u128 ^ 0x11bu128 == 0xc9u128,
        0x1d4u128 ^ 0x11bu128 == 0xcfu128,
        0x1d6u128 ^ 0x11bu128 == 0xcdu128,
        0x1d8u128 ^ 0x11bu128 == 0xc3u128,
        0x1dau128 ^ 0x11bu128 == 0xc1u128,
        0x1dcu128 ^ 0x11bu128 == 0xc7u128,
        0x1deu128 ^ 0x11bu128 == 0xc5u128,
        0x1e0u128 ^ 0x11bu128 == 0xfbu128,
        0x1e2u128 ^ 0x11bu128 == 0xf9u128,
        0x1e4u128 ^ 0x11bu128 == 0xffu128,
        0x1e6u128 ^ 0x11bu128 == 0xfdu128,
        0x1e8u128 ^ 0x11bu128 == 0xf3u128,
        0x1eau128 ^ 0x11bu128 == 0xf1u128,
        0x1ecu128 ^ 0x11bu128 == 0xf7u128,
        0x1eeu128 ^ 0x11bu128 == 0xf5u128,
        0x1f0u128 ^ 0x11bu128 == 0xebu128,
        0x1f2u128 ^ 0x11bu128 == 0xe9u128,
        0x1f4u128 ^ 0x11bu128 == 0xefu128,
        0x1f6u128 ^ 0x11bu128 == 0xedu128,
        0x1f8u128 ^ 0x11bu128 == 0xe3u128,
        0x1fau128 ^ 0x11bu128 == 0xe1u128,
        0x1fcu128 ^ 0x11bu128 == 0xe7u128,
        0x1feu128 ^ 0x11bu128 == 0xe5u128,
{
}

/// The powers of the generator of `gf256_rijndael`.
#[verifier::opaque]
pub open spec fn gf256_rijndael_gpow(k: nat) -> nat {
    powmod(0x3, k, 0x11b)
}

/// The powers `0x3^1` to `0x3^16` in `gf256_rijndael`.
#[verifier::rlimit(40)]
proof fn gf256_rijndael_powers_0()
    ensures
        gf256_rijndael_gpow(0) == 1,
        gf256_rijndael_gpow(1) == 0x3,
        gf256_rijndael_gpow(2) == 0x5,
        gf256_rijndael_gpow(3) == 0xf,
        gf256_rijndael_gpow(4) == 0x11,
        gf256_rijndael_gpow(5) == 0x33,
        gf256_rijndael_gpow(6) == 0x55,
        gf256_rijndael_gpow(7) == 0xff,
        gf256_rijndael_gpow(8) == 0x1a,
        gf256_rijndael_gpow(9) == 0x2e,
        gf256_rijndael_gpow(10) == 0x72,
        gf256_rijndael_gpow(11) == 0x96,
        gf256_rijndael_gpow(12) == 0xa1,
        gf256_rijndael_gpow(13) == 0xf8,
        gf256_rijndael_gpow(14) == 0x13,
        gf256_rijndael_gpow(15) == 0x35,
        gf256_rijndael_gpow(16) == 0x5f,
{
    reveal(gf256_rijndael_gpow);
    gf256_rijndael_xor_facts();
    assert(bitlen(0x11b) == 9) by {
        reveal_with_fuel(bitlen, 11);
    }
    assert(exp2(8) == 0x100) by {
        reveal_with_fuel(exp2, 10);
    }
    lemma_pmod_one(0x11b, 8);
    assert(powmod(0x3, 0, 0x11b) == 1);
    lemma_mulmod_two(0x1, 0x11b, 8);
    lemma_mulmod_three(0x1, 0x11b, 8);
    lemma_xor(0x1u128, 0x2u128);
    assert(powmod(0x3, 1, 0x11b) == 0x3);
    lemma_mulmod_two(0x3, 0x11b, 8);
    lemma_mulmod_three(0x3, 0x11b, 8);
    lemma_xor(0x3u128, 0x6u128);
    assert(powmod(0x3, 2, 0x11b) == 0x5);
    lemma_mulmod_two(0x5, 0x11b, 8);
    lemma_mulmod_three(0x5, 0x11b, 8);
    lemma_xor(0x5u128, 0xau128);
    assert(powmod(0x3, 3, 0x11b) == 0xf);
    lemma_mulmod_two(0xf, 0x11b, 8);
    lemma_mulmod_three(0xf, 0x11b, 8);
    lemma_xor(0xfu128, 0x1eu128);
    assert(powmod(0x3, 4, 0x11b) == 0x11);
    lemma_mulmod_two(0x11, 0x11b, 8);
    lemma_mulmod_three(0x11, 0x11b, 8);
    lemma_xor(0x11u128, 0x22u128);
    assert(powmod(0x3, 5, 0x11b) == 0x33);
    lemma_mulmod_two(0x33, 0x11b, 8);
    lemma_mulmod_three(0x33, 0x11b, 8);
    lemma_xor(0x33u128, 0x66u128);
    assert(powmod(0x3, 6, 0x11b) == 0x55);
    lemma_mulmod_two(0x55, 0x11b, 8);
    lemma_mulmod_three(0x55, 0x11b, 8);
    lemma_xor(0x55u128, 0xaau128);
    assert(powmod(0x3, 7, 0x11b) == 0xff);
    lemma_mulmod_two(0xff, 0x11b, 8);
    lemma_xor(0x1feu128, 0x11bu128);
    lemma_mulmod_three(0xff, 0x11b, 8);
    lemma_xor(0xffu128, 0xe5u128);
    assert(powmod(0x3, 8, 0x11b) == 0x1a);
    lemma_mulmod_two(0x1a, 0x11b, 8);
    lemma_mulmod_three(0x1a, 0x11b, 8);
    lemma_xor(0x1au128, 0x34u128);
    assert(powmod(0x3, 9, 0x11b) == 0x2e);
    lemma_mulmod_two(0x2e, 0x11b, 8);
    lemma_mulmod_three(0x2e, 0x11b, 8);
    lemma_xor(0x2eu128, 0x5cu128);
    assert(powmod(0x3, 10, 0x11b) == 0x72);
    lemma_mulmod_two(0x72, 0x11b, 8);
    lemma_mulmod_three(0x72, 0x11b, 8);
    lemma_xor(0x72u128, 0xe4u128);
    assert(powmod(0x3, 11, 0x11b) == 0x96);
    lemma_mulmod_two(0x96, 0x11b, 8);
    lemma_xor(0x12cu128, 0x11bu128);
    lemma_mulmod_three(0x96, 0x11b, 8);
    lemma_xor(0x96u128, 0x37u128);
    assert(powmod(0x3, 12, 0x11b) == 0xa1);
    lemma_mulmod_two(0xa1, 0x11b, 8);
    lemma_xor(0x142u128, 0x11bu128);
    lemma_mulmod_three(0xa1, 0x11b, 8);
    lemma_xor(0xa1u128, 0x59u128);
    assert(powmod(0x3, 13, 0x11b) == 0xf8);
    lemma_mulmod_two(0xf8, 0x11b, 8);
    lemma_xor(0x1f0u128, 0x11bu128);
    lemma_mulmod_three(0xf8, 0x11b, 8);
    lemma_xor(0xf8u128, 0xebu128);
    assert(powmod(0x3, 14, 0x11b) == 0x13);
    lemma_mulmod_two(0x13, 0x11b, 8);
    lemma_mulmod_three(0x13, 0x11b, 8);
    lemma_xor(0x13u128, 0x26u128);
    assert(powmod(0x3, 15, 0x11b) == 0x35);
    lemma_mulmod_two(0x35, 0x11b, 8);
    lemma_mulmod_three(0x35, 0x11b, 8);
    lemma_xor(0x35u128, 0x6au128);
    assert(powmod(0x3, 16, 0x11b) == 0x5f);
}

/// The powers `0x3^17` to `0x3^32` in `gf256_rijndael`.
#[verifier::rlimit(40)]
proof fn gf256_rijndael_powers_1()
    requires
        gf256_rijndael_gpow(16) == 0x5f,
    ensures
        gf256_rijndael_gpow(17) == 0xe1,
        gf256_rijndael_gpow(18) == 0x38,
        gf256_rijndael_gpow(19) == 0x48,
        gf256_rijndael_gpow(20) == 0xd8,
        gf256_rijndael_gpow(21) == 0x73,
        gf256_rijndael_gpow(22) == 0x95,
        gf256_rijndael_gpow(23) == 0xa4,
        gf256_rijndael_gpow(24) == 0xf7,
        gf256_rijndael_gpow(25) == 0x2,
        gf256_rijndael_gpow(26) == 0x6,
        gf256_rijndael_gpow(27) == 0xa,
        gf256_rijndael_gpow(28) == 0x1e,
        gf256_rijndael_gpow(29) == 0x22,
        gf256_rijndael_gpow(30) == 0x66,
        gf256_rijndael_gpow(31) == 0xaa,
        gf256_rijndael_gpow(32) == 0xe5,
{
    reveal(gf256_rijndael_gpow);
    gf256_rijndael_xor_facts();
    assert(bitlen(0x11b) == 9) by {
        reveal_with_fuel(bitlen, 11);
    }
    assert(exp2(8) == 0x100) by {
        reveal_with_fuel(exp2, 10);
    }
    lemma_mulmod_two(0x5f, 0x11b, 8);
    lemma_mulmod_three(0x5f, 0x11b, 8);
    lemma_xor(0x5fu128, 0xbeu128);
    assert(powmod(0x3, 17, 0x11b) == 0xe1);
    lemma_mulmod_two(0xe1, 0x11b, 8);
    lemma_xor(0x1c2u128, 0x11bu128);
    lemma_mulmod_three(0xe1, 0x11b, 8);
    lemma_xor(0xe1u128, 0xd9u128);
    assert(powmod(0x3, 18, 0x11b) == 0x38);
    lemma_mulmod_two(0x38, 0x11b, 8);
    lemma_mulmod_three(0x38, 0x11b, 8);
    lemma_xor(0x38u128, 0x70u128);
    assert(powmod(0x3, 19, 0x11b) == 0x48);
    lemma_mulmod_two(0x48, 0x11b, 8);
    lemma_mulmod_three(0x48, 0x11b, 8);
    lemma_xor(0x48u128, 0x90u128);
    assert(powmod(0x3, 20, 0x11b) == 0xd8);
    lemma_mulmod_two(0xd8, 0x11b, 8);
    lemma_xor(0x1b0u128, 0x11bu128);
    lemma_mulmod_three(0xd8, 0x11b, 8);
    lemma_xor(0xd8u128, 0xabu128);
    assert(powmod(0x3, 21, 0x11b) == 0x73);
    lemma_mulmod_two(0x73, 0x11b, 8);
    lemma_mulmod_three(0x73, 0x11b, 8);
    lemma_xor(0x73u128, 0xe6u128);
    assert(powmod(0x3, 22, 0x11b) == 0x95);
    lemma_mulmod_two(0x95, 0x11b, 8);
    lemma_xor(0x12au128, 0x11bu128);
    lemma_mulmod_three(0x95, 0x11b, 8);
    lemma_xor(0x95u128, 0x31u128);
    assert(powmod(0x3, 23, 0x11b) == 0xa4);
    lemma_mulmod_two(0xa4, 0x11b, 8);
    lemma_xor(0x148u128, 0x11bu128);
    lemma_mulmod_three(0xa4, 0x11b, 8);
    lemma_xor(0xa4u128, 0x53u128);
    assert(powmod(0x3, 24, 0x11b) == 0xf7);
    lemma_mulmod_two(0xf7, 0x11b, 8);
    lemma_xor(0x1eeu128, 0x11bu128);
    lemma_mulmod_three(0xf7, 0x11b, 8);
    lemma_xor(0xf7u128, 0xf5u128);
    assert(powmod(0x3, 25, 0x11b) == 0x2);
    lemma_mulmod_two(0x2, 0x11b, 8);
    lemma_mulmod_three(0x2, 0x11b, 8);
    lemma_xor(0x2u128, 0x4u128);
    assert(powmod(0x3, 26, 0x11b) == 0x6);
    lemma_mulmod_two(0x6, 0x11b, 8);
    lemma_mulmod_three(0x6, 0x11b, 8);
    lemma_xor(0x6u128, 0xcu128);
    assert(powmod(0x3, 27, 0x11b) == 0xa);
    lemma_mulmod_two(0xa, 0x11b, 8);
    lemma_mulmod_three(0xa, 0x11b, 8);
    lemma_xor(0xau128, 0x14u128);
    assert(powmod(0x3, 28, 0x11b) == 0x1e);
    lemma_mulmod_two(0x1e, 0x11b, 8);
    lemma_mulmod_three(0x1e, 0x11b, 8);
    lemma_xor(0x1eu128, 0x3cu128);
    assert(powmod(0x3, 29, 0x11b) == 0x22);
    lemma_mulmod_two(0x22, 0x11b, 8);
    lemma_mulmod_three(0x22, 0x11b, 8);
    lemma_xor(0x22u128, 0x44u128);
    assert(powmod(0x3, 30, 0x11b) == 0x66);
    lemma_mulmod_two(0x66, 0x11b, 8);
    lemma_mulmod_three(0x66, 0x11b, 8);
    lemma_xor(0x66u128, 0xccu128);
    assert(powmod(0x3, 31, 0x11b) == 0xaa);
    lemma_mulmod_two(0xaa, 0x11b, 8);
    lemma_xor(0x154u128, 0x11bu128);
    lemma_mulmod_three(0xaa, 0x11b, 8);
    lemma_xor(0xaau128, 0x4fu128);
    assert(powmod(0x3, 32, 0x11b) == 0xe5);
}

/// The powers `0x3^33` to `0x3^48` in `gf256_rijndael`.
#[verifier::rlimit(40)]
proof fn gf256_rijndael_powers_2()
    requires
        gf256_rijndael_gpow(32) == 0xe5,
    ensures
        gf256_rijndael_gpow(33) == 0x34,
        gf256_rijndael_gpow(34) == 0x5c,
        gf256_rijndael_gpow(35) == 0xe4,
        gf256_rijndael_gpow(36) == 0x37,
        gf256_rijndael_gpow(37) == 0x59,
        gf256_rijndael_gpow(38) == 0xeb,
        gf256_rijndael_gpow(39) == 0x26,
        gf256_rijndael_gpow(40) == 0x6a,
        gf256_rijndael_gpow(41) == 0xbe,
        gf256_rijndael_gpow(42) == 0xd9,
        gf256_rijndael_gpow(43) == 0x70,
        gf256_rijndael_gpow(44) == 0x90,
        gf256_rijndael_gpow(45) == 0xab,
        gf256_rijndael_gpow(46) == 0xe6,
        gf256_rijndael_gpow(47) == 0x31,
        gf256_rijndael_gpow(48) == 0x53,
{
    reveal(gf256_rijndael_gpow);
    gf256_rijndael_xor_facts();
    assert(bitlen(0x11b) == 9) by {
        reveal_with_fuel(bitlen, 11);
    }
    assert(exp2(8) == 0x100) by {
        reveal_with_fuel(exp2, 10);
    }
    lemma_mulmod_two(0xe5, 0x11b, 8);
    lemma_xor(0x1cau128, 0x11bu128);
    lemma_mulmod_three(0xe5, 0x11b, 8);
    lemma_xor(0xe5u128, 0xd1u128);
    assert(powmod(0x3, 33, 0x11b) == 0x34);
    lemma_mulmod_two(0x34, 0x11b, 8);
    lemma_mulmod_three(0x34, 0x11b, 8);
    lemma_xor(0x34u128, 0x68u128);
    assert(powmod(0x3, 34, 0x11b) == 0x5c);
    lemma_mulmod_two(0x5c, 0x11b, 8);
    lemma_mulmod_three(0x5c, 0x11b, 8);
    lemma_xor(0x5cu128, 0xb8u128);
    assert(powmod(0x3, 35, 0x11b) == 0xe4);
    lemma_mulmod_two(0xe4, 0x11b, 8);
    lemma_xor(0x1c8u128, 0x11bu128);
    lemma_mulmod_three(0xe4, 0x11b, 8);
    lemma_xor(0xe4u128, 0xd3u128);
    assert(powmod(0x3, 36, 0x11b) == 0x37);
    lemma_mulmod_two(0x37, 0x11b, 8);
    lemma_mulmod_three(0x37, 0x11b, 8);
    lemma_xor(0x37u128, 0x6eu128);
    assert(powmod(0x3, 37, 0x11b) == 0x59);
    lemma_mulmod_two(0x59, 0x11b, 8);
    lemma_mulmod_three(0x59, 0x11b, 8);
    lemma_xor(0x59u128, 0xb2u128);
    assert(powmod(0x3, 38, 0x11b) == 0xeb);
    lemma_mulmod_two(0xeb, 0x11b, 8);
    lemma_xor(0x1d6u128, 0x11bu128);
    lemma_mulmod_three(0xeb, 0x11b, 8);
    lemma_xor(0xebu128, 0xcdu128);
    assert(powmod(0x3, 39, 0x11b) == 0x26);
    lemma_mulmod_two(0x26, 0x11b, 8);
    lemma_mulmod_three(0x26, 0x11b, 8);
    lemma_xor(0x26u128, 0x4cu128);
    assert(powmod(0x3, 40, 0x11b) == 0x6a);
    lemma_mulmod_two(0x6a, 0x11b, 8);
    lemma_mulmod_three(0x6a, 0x11b, 8);
    lemma_xor(0x6au128, 0xd4u128);
    assert(powmod(0x3, 41, 0x11b) == 0xbe);
    lemma_mulmod_two(0xbe, 0x11b, 8);
    lemma_xor(0x17cu128, 0x11bu128);
    lemma_mulmod_three(0xbe, 0x11b, 8);
    lemma_xor(0xbeu128, 0x67u128);
    assert(powmod(0x3, 42, 0x11b) == 0xd9);
    lemma_mulmod_two(0xd9, 0x11b, 8);
    lemma_xor(0x1b2u128, 0x11bu128);
    lemma_mulmod_three(0xd9, 0x11b, 8);
    lemma_xor(0xd9u128, 0xa9u128);
    assert(powmod(0x3, 43, 0x11b) == 0x70);
    lemma_mulmod_two(0x70, 0x11b, 8);
    lemma_mulmod_three(0x70, 0x11b, 8);
    lemma_xor(0x70u128, 0xe0u128);
    assert(powmod(0x3, 44, 0x11b) == 0x90);
    lemma_mulmod_two(0x90, 0x11b, 8);
    lemma_xor(0x120u128, 0x11bu128);
    lemma_mulmod_three(0x90, 0x11b, 8);
    lemma_xor(0x90u128, 0x3bu128);
    assert(powmod(0x3, 45, 0x11b) == 0xab);
    lemma_mulmod_two(0xab, 0x11b, 8);
    lemma_xor(0x156u128, 0x11bu128);
    lemma_mulmod_three(0xab, 0x11b, 8);
    lemma_xor(0xabu128, 0x4du128);
    assert(powmod(0x3, 46, 0x11b) == 0xe6);
    lemma_mulmod_two(0xe6, 0x11b, 8);
    lemma_xor(0x1ccu128, 0x11bu128);
    lemma_mulmod_three(0xe6, 0x11b, 8);
    lemma_xor(0xe6u128, 0xd7u128);
    assert(powmod(0x3, 47, 0x11b) == 0x31);
    lemma_mulmod_two(0x31, 0x11b, 8);
    lemma_mulmod_three(0x31, 0x11b, 8);
    lemma_xor(0x31u128, 0x62u128);
    assert(powmod(0x3, 48, 0x11b) == 0x53);
}

/// The powers `0x3^49` to `0x3^64` in `gf256_rijndael`.
#[verifier::rlimit(40)]
proof fn gf256_rijndael_powers_3()
    requires
        gf256_rijndael_gpow(48) == 0x53,
    ensures
        gf256_rijndael_gpow(49) == 0xf5,
        gf256_rijndael_gpow(50) == 0x4,
        gf256_rijndael_gpow(51) == 0xc,
        gf256_rijndael_gpow(52) == 0x14,
        gf256_rijndael_gpow(53) == 0x3c,
        gf256_rijndael_gpow(54) == 0x44,
        gf256_rijndael_gpow(55) == 0xcc,
        gf256_rijndael_gpow(56) == 0x4f,
        gf256_rijndael_gpow(57) == 0xd1,
        gf256_rijndael_gpow(58) == 0x68,
        gf256_rijndael_gpow(59) == 0xb8,
        gf256_rijndael_gpow(60) == 0xd3,
        gf256_rijndael_gpow(61) == 0x6e,
        gf256_rijndael_gpow(62) == 0xb2,
        gf256_rijndael_gpow(63) == 0xcd,
        gf256_rijndael_gpow(64) == 0x4c,
{
    reveal(gf256_rijndael_gpow);
    gf256_rijndael_xor_facts();
    assert(bitlen(0x11b) == 9) by {
        reveal_with_fuel(bitlen, 11);
    }
    assert(exp2(8) == 0x100) by {
        reveal_with_fuel(exp2, 10);
    }
    lemma_mulmod_two(0x53, 0x11b, 8);
    lemma_mulmod_three(0x53, 0x11b, 8);
    lemma_xor(0x53u128, 0xa6u128);
    assert(powmod(0x3, 49, 0x11b) == 0xf5);
    lemma_mulmod_two(0xf5, 0x11b, 8);
    lemma_xor(0x1eau128, 0x11bu128);
    lemma_mulmod_three(0xf5, 0x11b, 8);
    lemma_xor(0xf5u128, 0xf1u128);
    assert(powmod(0x3, 50, 0x11b) == 0x4);
    lemma_mulmod_two(0x4, 0x11b, 8);
    lemma_mulmod_three(0x4, 0x11b, 8);
    lemma_xor(0x4u128, 0x8u128);
    assert(powmod(0x3, 51, 0x11b) == 0xc);
    lemma_mulmod_two(0xc, 0x11b, 8);
    lemma_mulmod_three(0xc, 0x11b, 8);
    lemma_xor(0xcu128, 0x18u128);
    assert(powmod(0x3, 52, 0x11b) == 0x14);
    lemma_mulmod_two(0x14, 0x11b, 8);
    lemma_mulmod_three(0x14, 0x11b, 8);
    lemma_xor(0x14u128, 0x28u128);
    assert(powmod(0x3, 53, 0x11b) == 0x3c);
    lemma_mulmod_two(0x3c, 0x11b, 8);
    lemma_mulmod_three(0x3c, 0x11b, 8);
    lemma_xor(0x3cu128, 0x78u128);
    assert(powmod(0x3, 54, 0x11b) == 0x44);
    lemma_mulmod_two(0x44, 0x11b, 8);
    lemma_mulmod_three(0x44, 0x11b, 8);
    lemma_xor(0x44u128, 0x88u128);
    assert(powmod(0x3, 55, 0x11b) == 0xcc);
    lemma_mulmod_two(0xcc, 0x11b, 8);
    lemma_xor(0x198u128, 0x11bu128);
    lemma_mulmod_three(0xcc, 0x11b, 8);
    lemma_xor(0xccu128, 0x83u128);
    assert(powmod(0x3, 56, 0x11b) == 0x4f);
    lemma_mulmod_two(0x4f, 0x11b, 8);
    lemma_mulmod_three(0x4f, 0x11b, 8);
    lemma_xor(0x4fu128, 0x9eu128);
    assert(powmod(0x3, 57, 0x11b) == 0xd1);
    lemma_mulmod_two(0xd1, 0x11b, 8);
    lemma_xor(0x1a2u128, 0x11bu128);
    lemma_mulmod_three(0xd1, 0x11b, 8);
    lemma_xor(0xd1u128, 0xb9u128);
    assert(powmod(0x3, 58, 0x11b) == 0x68);
    lemma_mulmod_two(0x68, 0x11b, 8);
    lemma_mulmod_three(0x68, 0x11b, 8);
    lemma_xor(0x68u128, 0xd0u128);
    assert(powmod(0x3, 59, 0x11b) == 0xb8);
    lemma_mulmod_two(0xb8, 0x11b, 8);
    lemma_xor(0x170u128, 0x11bu128);
    lemma_mulmod_three(0xb8, 0x11b, 8);
    lemma_xor(0xb8u128, 0x6bu128);
    assert(powmod(0x3, 60, 0x11b) == 0xd3);
    lemma_mulmod_two(0xd3, 0x11b, 8);
    lemma_xor(0x1a6u128, 0x11bu128);
    lemma_mulmod_three(0xd3, 0x11b, 8);
    lemma_xor(0xd3u128, 0xbdu128);
    assert(powmod(0x3, 61, 0x11b) == 0x6e);
    lemma_mulmod_two(0x6e, 0x11b, 8);
    lemma_mulmod_three(0x6e, 0x11b, 8);
    lemma_xor(0x6eu128, 0xdcu128);
    assert(powmod(0x3, 62, 0x11b) == 0xb2);
    lemma_mulmod_two(0xb2, 0x11b, 8);
    lemma_xor(0x164u128, 0x11bu128);
    lemma_mulmod_three(0xb2, 0x11b, 8);
    lemma_xor(0xb2u128, 0x7fu128);
    assert(powmod(0x3, 63, 0x11b) == 0xcd);
    lemma_mulmod_two(0xcd, 0x11b, 8);
    lemma_xor(0x19au128, 0x11bu128);
    lemma_mulmod_three(0xcd, 0x11b, 8);
    lemma_xor(0xcdu128, 0x81u128);
    assert(powmod(0x3, 64, 0x11b) == 0x4c);
}

/// The powers `0x3^65` to `0x3^80` in `gf256_rijndael`.
#[verifier::rlimit(40)]
proof fn gf256_rijndael_powers_4()
    requires
        gf256_rijndael_gpow(64) == 0x4c,
    ensures
        gf256_rijndael_gpow(65) == 0xd4,
        gf256_rijndael_gpow(66) == 0x67,
        gf256_rijndael_gpow(67) == 0xa9,
        gf256_rijndael_gpow(68) == 0xe0,
        gf256_rijndael_gpow(69) == 0x3b,
        gf256_rijndael_gpow(70) == 0x4d,
        gf256_rijndael_gpow(71) == 0xd7,
        gf256_rijndael_gpow(72) == 0x62,
        gf256_rijndael_gpow(73) == 0xa6,
        gf256_rijndael_gpow(74) == 0xf1,
        gf256_rijndael_gpow(75) == 0x8,
        gf256_rijndael_gpow(76) == 0x18,
        gf256_rijndael_gpow(77) == 0x28,
        gf256_rijndael_gpow(78) == 0x78,
        gf256_rijndael_gpow(79) == 0x88,
        gf256_rijndael_gpow(80) == 0x83,
{
    reveal(gf256_rijndael_gpow);
    gf256_rijndael_xor_facts();
    assert(bitlen(0x11b) == 9) by {
        reveal_with_fuel(bitlen, 11);
    }
    assert(exp2(8) == 0x100) by {
        reveal_with_fuel(exp2, 10);
    }
    lemma_mulmod_two(0x4c, 0x11b, 8);
    lemma_mulmod_three(0x4c, 0x11b, 8);
    lemma_xor(0x4cu128, 0x98u128);
    assert(powmod(0x3, 65, 0x11b) == 0xd4);
    lemma_mulmod_two(0xd4, 0x11b, 8);
    lemma_xor(0x1a8u128, 0x11bu128);
    lemma_mulmod_three(0xd4, 0x11b, 8);
    lemma_xor(0xd4u128, 0xb3u128);
    assert(powmod(0x3, 66, 0x11b) == 0x67);
    lemma_mulmod_two(0x67, 0x11b, 8);
    lemma_mulmod_three(0x67, 0x11b, 8);
    lemma_xor(0x67u128, 0xceu128);
    assert(powmod(0x3, 67, 0x11b) == 0xa9);
    lemma_mulmod_two(0xa9, 0x11b, 8);
    lemma_xor(0x152u128, 0x11bu128);
    lemma_mulmod_three(0xa9, 0x11b, 8);
    lemma_xor(0xa9u128, 0x49u128);
    assert(powmod(0x3, 68, 0x11b) == 0xe0);
    lemma_mulmod_two(0xe0, 0x11b, 8);
    lemma_xor(0x1c0u128, 0x11bu128);
    lemma_mulmod_three(0xe0, 0x11b, 8);
    lemma_xor(0xe0u128, 0xdbu128);
    assert(powmod(0x3, 69, 0x11b) == 0x3b);
    lemma_mulmod_two(0x3b, 0x11b, 8);
    lemma_mulmod_three(0x3b, 0x11b, 8);
    lemma_xor(0x3bu128, 0x76u128);
    assert(powmod(0x3, 70, 0x11b) == 0x4d);
    lemma_mulmod_two(0x4d, 0x11b, 8);
    lemma_mulmod_three(0x4d, 0x11b, 8);
    lemma_xor(0x4du128, 0x9au128);
    assert(powmod(0x3, 71, 0x11b) == 0xd7);
    lemma_mulmod_two(0xd7, 0x11b, 8);
    lemma_xor(0x1aeu128, 0x11bu128);
    lemma_mulmod_three(0xd7, 0x11b, 8);
    lemma_xor(0xd7u128, 0xb5u128);
    assert(powmod(0x3, 72, 0x11b) == 0x62);
    lemma_mulmod_two(0x62, 0x11b, 8);
    lemma_mulmod_three(0x62, 0x11b, 8);
    lemma_xor(0x62u128, 0xc4u128);
    assert(powmod(0x3, 73, 0x11b) == 0xa6);
    lemma_mulmod_two(0xa6, 0x11b, 8);
    lemma_xor(0x14cu128, 0x11bu128);
    lemma_mulmod_three(0xa6, 0x11b, 8);
    lemma_xor(0xa6u128, 0x57u128);
    assert(powmod(0x3, 74, 0x11b) == 0xf1);
    lemma_mulmod_two(0xf1, 0x11b, 8);
    lemma_xor(0x1e2u128, 0x11bu128);
    lemma_mulmod_three(0xf1, 0x11b, 8);
    lemma_xor(0xf1u128, 0xf9u128);
    assert(powmod(0x3, 75, 0x11b) == 0x8);
    lemma_mulmod_two(0x8, 0x11b, 8);
    lemma_mulmod_three(0x8, 0x11b, 8);
    lemma_xor(0x8u128, 0x10u128);
    assert(powmod(0x3, 76, 0x11b) == 0x18);
    lemma_mulmod_two(0x18, 0x11b, 8);
    lemma_mulmod_three(0x18, 0x11b, 8);
    lemma_xor(0x18u128, 0x30u128);
    assert(powmod(0x3, 77, 0x11b) == 0x28);
    lemma_mulmod_two(0x28, 0x11b, 8);
    lemma_mulmod_three(0x28, 0x11b, 8);
    lemma_xor(0x28u128, 0x50u128);
    assert(powmod(0x3, 78, 0x11b) == 0x78);
    lemma_mulmod_two(0x78, 0x11b, 8);
    lemma_mulmod_three(0x78, 0x11b, 8);
    lemma_xor(0x78u128, 0xf0u128);
    assert(powmod(0x3, 79, 0x11b) == 0x88);
    lemma_mulmod_two(0x88, 0x11b, 8);
    lemma_xor(0x110u128, 0x11bu128);
    lemma_mulmod_three(0x88, 0x11b, 8);
    lemma_xor(0x88u128, 0xbu128);
    assert(powmod(0x3, 80, 0x11b) == 0x83);
}

/// The powers `0x3^81` to `0x3^96` in `gf256_rijndael`.
#[verifier::rlimit(40)]
proof fn gf256_rijndael_powers_5()
    requires
        gf256_rijndael_gpow(80) == 0x83,
    ensures
        gf256_rijndael_gpow(81) == 0x9e,
        gf256_rijndael_gpow(82) == 0xb9,
        gf256_rijndael_gpow(83) == 0xd0,
        gf256_rijndael_gpow(84) == 0x6b,
        gf256_rijndael_gpow(85) == 0xbd,
        gf256_rijndael_gpow(86) == 0xdc,
        gf256_rijndael_gpow(87) == 0x7f,
        gf256_rijndael_gpow(88) == 0x81,
        gf256_rijndael_gpow(89) == 0x98,
        gf256_rijndael_gpow(90) == 0xb3,
        gf256_rijndael_gpow(91) == 0xce,
        gf256_rijndael_gpow(92) == 0x49,
        gf256_rijndael_gpow(93) == 0xdb,
        gf256_rijndael_gpow(94) == 0x76,
        gf256_rijndael_gpow(95) == 0x9a,
        gf256_rijndael_gpow(96) == 0xb5,
{
    reveal(gf256_rijndael_gpow);
    gf256_rijndael_xor_facts();
    assert(bitlen(0x11b) == 9) by {
        reveal_with_fuel(bitlen, 11);
    }
    assert(exp2(8) == 0x100) by {
        reveal_with_fuel(exp2, 10);
    }
    lemma_mulmod_two(0x83, 0x11b, 8);
    lemma_xor(0x106u128, 0x11bu128);
    lemma_mulmod_three(0x83, 0x11b, 8);
    lemma_xor(0x83u128, 0x1du128);
    assert(powmod(0x3, 81, 0x11b) == 0x9e);
    lemma_mulmod_two(0x9e, 0x11b, 8);
    lemma_xor(0x13cu128, 0x11bu128);
    lemma_mulmod_three(0x9e, 0x11b, 8);
    lemma_xor(0x9eu128, 0x27u128);
    assert(powmod(0x3, 82, 0x11b) == 0xb9);
    lemma_mulmod_two(0xb9, 0x11b, 8);
    lemma_xor(0x172u128, 0x11bu128);
    lemma_mulmod_three(0xb9, 0x11b, 8);
    lemma_xor(0xb9u128, 0x69u128);
    assert(powmod(0x3, 83, 0x11b) == 0xd0);
    lemma_mulmod_two(0xd0, 0x11b, 8);
    lemma_xor(0x1a0u128, 0x11bu128);
    lemma_mulmod_three(0xd0, 0x11b, 8);
    lemma_xor(0xd0u128, 0xbbu128);
    assert(powmod(0x3, 84, 0x11b) == 0x6b);
    lemma_mulmod_two(0x6b, 0x11b, 8);
    lemma_mulmod_three(0x6b, 0x11b, 8);
    lemma_xor(0x6bu128, 0xd6u128);
    assert(powmod(0x3, 85, 0x11b) == 0xbd);
    lemma_mulmod_two(0xbd, 0x11b, 8);
    lemma_xor(0x17au128, 0x11bu128);
    lemma_mulmod_three(0xbd, 0x11b, 8);
    lemma_xor(0xbdu128, 0x61u128);
    assert(powmod(0x3, 86, 0x11b) == 0xdc);
    lemma_mulmod_two(0xdc, 0x11b, 8);
    lemma_xor(0x1b8u128, 0x11bu128);
    lemma_mulmod_three(0xdc, 0x11b, 8);
    lemma_xor(0xdcu128, 0xa3u128);
    assert(powmod(0x3, 87, 0x11b) == 0x7f);
    lemma_mulmod_two(0x7f, 0x11b, 8);
    lemma_mulmod_three(0x7f, 0x11b, 8);
    lemma_xor(0x7fu128, 0xfeu128);
    assert(powmod(0x3, 88, 0x11b) == 0x81);
    lemma_mulmod_two(0x81, 0x11b, 8);
    lemma_xor(0x102u128, 0x11bu128);
    lemma_mulmod_three(0x81, 0x11b, 8);
    lemma_xor(0x81u128, 0x19u128);
    assert(powmod(0x3, 89, 0x11b) == 0x98);
    lemma_mulmod_two(0x98, 0x11b, 8);
    lemma_xor(0x130u128, 0x11bu128);
    lemma_mulmod_three(0x98, 0x11b, 8);
    lemma_xor(0x98u128, 0x2bu128);
    assert(powmod(0x3, 90, 0x11b) == 0xb3);
    lemma_mulmod_two(0xb3, 0x11b, 8);
    lemma_xor(0x166u128, 0x11bu128);
    lemma_mulmod_three(0xb3, 0x11b, 8);
    lemma_xor(0xb3u128, 0x7du128);
    assert(powmod(0x3, 91, 0x11b) == 0xce);
    lemma_mulmod_two(0xce, 0x11b, 8);
    lemma_xor(0x19cu128, 0x11bu128);
    lemma_mulmod_three(0xce, 0x11b, 8);
    lemma_xor(0xceu128, 0x87u128);
    assert(powmod(0x3, 92, 0x11b) == 0x49);
    lemma_mulmod_two(0x49, 0x11b, 8);
    lemma_mulmod_three(0x49, 0x11b, 8);
    lemma_xor(0x49u128, 0x92u128);
    assert(powmod(0x3, 93, 0x11b) == 0xdb);
    lemma_mulmod_two(0xdb, 0x11b, 8);
    lemma_xor(0x1b6u128, 0x11bu128);
    lemma_mulmod_three(0xdb, 0x11b, 8);
    lemma_xor(0xdbu128, 0xadu128);
    assert(powmod(0x3, 94, 0x11b) == 0x76);
    lemma_mulmod_two(0x76, 0x11b, 8);
    lemma_mulmod_three(0x76, 0x11b, 8);
    lemma_xor(0x76u128, 0xecu128);
    assert(powmod(0x3, 95, 0x11b) == 0x9a);
    lemma_mulmod_two(0x9a, 0x11b, 8);
    lemma_xor(0x134u128, 0x11bu128);
    lemma_mulmod_three(0x9a, 0x11b, 8);
    lemma_xor(0x9au128, 0x2fu128);
    assert(powmod(0x3, 96, 0x11b) == 0xb5);
}

/// The powers `0x3^97` to `0x3^112` in `gf256_rijndael`.
#[verifier::rlimit(40)]
proof fn gf256_rijndael_powers_6()
    requires
        gf256_rijndael_gpow(96) == 0xb5,
    ensures
        gf256_rijndael_gpow(97) == 0xc4,
        gf256_rijndael_gpow(98) == 0x57,
        gf256_rijndael_gpow(99) == 0xf9,
        gf256_rijndael_gpow(100) == 0x10,
        gf256_rijndael_gpow(101) == 0x30,
        gf256_rijndael_gpow(102) == 0x50,
        gf256_rijndael_gpow(103) == 0xf0,
        gf256_rijndael_gpow(104) == 0xb,
        gf256_rijndael_gpow(105) == 0x1d,
        gf256_rijndael_gpow(106) == 0x27,
        gf256_rijndael_gpow(107) == 0x69,
        gf256_rijndael_gpow(108) == 0xbb,
        gf256_rijndael_gpow(109) == 0xd6,
        gf256_rijndael_gpow(110) == 0x61,
        gf256_rijndael_gpow(111) == 0xa3,
        gf256_rijndael_gpow(112) == 0xfe,
{
    reveal(gf256_rijndael_gpow);
    gf256_rijndael_xor_facts();
    assert(bitlen(0x11b) == 9) by {
        reveal_with_fuel(bitlen, 11);
    }
    assert(exp2(8) == 0x100) by {
        reveal_with_fuel(exp2, 10);
    }
    lemma_mulmod_two(0xb5, 0x11b, 8);
    lemma_xor(0x16au128, 0x11bu128);
    lemma_mulmod_three(0xb5, 0x11b, 8);
    lemma_xor(0xb5u128, 0x71u128);
    assert(powmod(0x3, 97, 0x11b) == 0xc4);
    lemma_mulmod_two(0xc4, 0x11b, 8);
    lemma_xor(0x188u128, 0x11bu128);
    lemma_mulmod_three(0xc4, 0x11b, 8);
    lemma_xor(0xc4u128, 0x93u128);
    assert(powmod(0x3, 98, 0x11b) == 0x57);
    lemma_mulmod_two(0x57, 0x11b, 8);
    lemma_mulmod_three(0x57, 0x11b, 8);
    lemma_xor(0x57u128, 0xaeu128);
    assert(powmod(0x3, 99, 0x11b) == 0xf9);
    lemma_mulmod_two(0xf9, 0x11b, 8);
    lemma_xor(0x1f2u128, 0x11bu128);
    lemma_mulmod_three(0xf9, 0x11b, 8);
    lemma_xor(0xf9u128, 0xe9u128);
    assert(powmod(0x3, 100, 0x11b) == 0x10);
    lemma_mulmod_two(0x10, 0x11b, 8);
    lemma_mulmod_three(0x10, 0x11b, 8);
    lemma_xor(0x10u128, 0x20u128);
    assert(powmod(0x3, 101, 0x11b) == 0x30);
    lemma_mulmod_two(0x30, 0x11b, 8);
    lemma_mulmod_three(0x30, 0x11b, 8);
    lemma_xor(0x30u128, 0x60u128);
    assert(powmod(0x3, 102, 0x11b) == 0x50);
    lemma_mulmod_two(0x50, 0x11b, 8);
    lemma_mulmod_three(0x50, 0x11b, 8);
    lemma_xor(0x50u128, 0xa0u128);
    assert(powmod(0x3, 103, 0x11b) == 0xf0);
    lemma_mulmod_two(0xf0, 0x11b, 8);
    lemma_xor(0x1e0u128, 0x11bu128);
    lemma_mulmod_three(0xf0, 0x11b, 8);
    lemma_xor(0xf0u128, 0xfbu128);
    assert(powmod(0x3, 104, 0x11b) == 0xb);
    lemma_mulmod_two(0xb, 0x11b, 8);
    lemma_mulmod_three(0xb, 0x11b, 8);
    lemma_xor(0xbu128, 0x16u128);
    assert(powmod(0x3, 105, 0x11b) == 0x1d);
    lemma_mulmod_two(0x1d, 0x11b, 8);
    lemma_mulmod_three(0x1d, 0x11b, 8);
    lemma_xor(0x1du128, 0x3au128);
    assert(powmod(0x3, 106, 0x11b) == 0x27);
    lemma_mulmod_two(0x27, 0x11b, 8);
    lemma_mulmod_three(0x27, 0x11b, 8);
    lemma_xor(0x27u128, 0x4eu128);
    assert(powmod(0x3, 107, 0x11b) == 0x69);
    lemma_mulmod_two(0x69, 0x11b, 8);
    lemma_mulmod_three(0x69, 0x11b, 8);
    lemma_xor(0x69u128, 0xd2u128);
    assert(powmod(0x3, 108, 0x11b) == 0xbb);
    lemma_mulmod_two(0xbb, 0x11b, 8);
    lemma_xor(0x176u128, 0x11bu128);
    lemma_mulmod_three(0xbb, 0x11b, 8);
    lemma_xor(0xbbu128, 0x6du128);
    assert(powmod(0x3, 109, 0x11b) == 0xd6);
    lemma_mulmod_two(0xd6, 0x11b, 8);
    lemma_xor(0x1acu128, 0x11bu128);
    lemma_mulmod_three(0xd6, 0x11b, 8);
    lemma_xor(0xd6u128, 0xb7u128);
    assert(powmod(0x3, 110, 0x11b) == 0x61);
    lemma_mulmod_two(0x61, 0x11b, 8);
    lemma_mulmod_three(0x61, 0x11b, 8);
    lemma_xor(0x61u128, 0xc2u128);
    assert(powmod(0x3, 111, 0x11b) == 0xa3);
    lemma_mulmod_two(0xa3, 0x11b, 8);
    lemma_xor(0x146u128, 0x11bu128);
    lemma_mulmod_three(0xa3, 0x11b, 8);
    lemma_xor(0xa3u128, 0x5du128);
    assert(powmod(0x3, 112, 0x11b) == 0xfe);
}

/// The powers `0x3^113` to `0x3^128` in `gf256_rijndael`.
#[verifier::rlimit(40)]
proof fn gf256_rijndael_powers_7()
    requires
        gf256_rijndael_gpow(112) == 0xfe,
    ensures
        gf256_rijndael_gpow(113) == 0x19,
        gf256_rijndael_gpow(114) == 0x2b,
        gf256_rijndael_gpow(115) == 0x7d,
        gf256_rijndael_gpow(116) == 0x87,
        gf256_rijndael_gpow(117) == 0x92,
        gf256_rijndael_gpow(118) == 0xad,
        gf256_rijndael_gpow(119) == 0xec,
        gf256_rijndael_gpow(120) == 0x2f,
        gf256_rijndael_gpow(121) == 0x71,
        gf256_rijndael_gpow(122) == 0x93,
        gf256_rijndael_gpow(123) == 0xae,
        gf256_rijndael_gpow(124) == 0xe9,
        gf256_rijndael_gpow(125) == 0x20,
        gf256_rijndael_gpow(126) == 0x60,
        gf256_rijndael_gpow(127) == 0xa0,
        gf256_rijndael_gpow(128) == 0xfb,
{
    reveal(gf256_rijndael_gpow);
    gf256_rijndael_xor_facts();
    assert(bitlen(0x11b) == 9) by {
        reveal_with_fuel(bitlen, 11);
    }
    assert(exp2(8) == 0x100) by {
        reveal_with_fuel(exp2, 10);
    }
    lemma_mulmod_two(0xfe, 0x11b, 8);
    lemma_xor(0x1fcu128, 0x11bu128);
    lemma_mulmod_three(0xfe, 0x11b, 8);
    lemma_xor(0xfeu128, 0xe7u128);
    assert(powmod(0x3, 113, 0x11b) == 0x19);
    lemma_mulmod_two(0x19, 0x11b, 8);
    lemma_mulmod_three(0x19, 0x11b, 8);
    lemma_xor(0x19u128, 0x32u128);
    assert(powmod(0x3, 114, 0x11b) == 0x2b);
    lemma_mulmod_two(0x2b, 0x11b, 8);
    lemma_mulmod_three(0x2b, 0x11b, 8);
    lemma_xor(0x2bu128, 0x56u128);
    assert(powmod(0x3, 115, 0x11b) == 0x7d);
    lemma_mulmod_two(0x7d, 0x11b, 8);
    lemma_mulmod_three(0x7d, 0x11b, 8);
    lemma_xor(0x7du128, 0xfau128);
    assert(powmod(0x3, 116, 0x11b) == 0x87);
    lemma_mulmod_two(0x87, 0x11b, 8);
    lemma_xor(0x10eu128, 0x11bu128);
    lemma_mulmod_three(0x87, 0x11b, 8);
    lemma_xor(0x87u128, 0x15u128);
    assert(powmod(0x3, 117, 0x11b) == 0x92);
    lemma_mulmod_two(0x92, 0x11b, 8);
    lemma_xor(0x124u128, 0x11bu128);
    lemma_mulmod_three(0x92, 0x11b, 8);
    lemma_xor(0x92u128, 0x3fu128);
    assert(powmod(0x3, 118, 0x11b) == 0xad);
    lemma_mulmod_two(0xad, 0x11b, 8);
    lemma_xor(0x15au128, 0x11bu128);
    lemma_mulmod_three(0xad, 0x11b, 8);
    lemma_xor(0xadu128, 0x41u128);
    assert(powmod(0x3, 119, 0x11b) == 0xec);
    lemma_mulmod_two(0xec, 0x11b, 8);
    lemma_xor(0x1d8u128, 0x11bu128);
    lemma_mulmod_three(0xec, 0x11b, 8);
    lemma_xor(0xecu128, 0xc3u128);
    assert(powmod(0x3, 120, 0x11b) == 0x2f);
    lemma_mulmod_two(0x2f, 0x11b, 8);
    lemma_mulmod_three(0x2f, 0x11b, 8);
    lemma_xor(0x2fu128, 0x5eu128);
    assert(powmod(0x3, 121, 0x11b) == 0x71);
    lemma_mulmod_two(0x71, 0x11b, 8);
    lemma_mulmod_three(0x71, 0x11b, 8);
    lemma_xor(0x71u128, 0xe2u128);
    assert(powmod(0x3, 122, 0x11b) == 0x93);
    lemma_mulmod_two(0x93, 0x11b, 8);
    lemma_xor(0x126u128, 0x11bu128);
    lemma_mulmod_three(0x93, 0x11b, 8);
    lemma_xor(0x93u128, 0x3du128);
    assert(powmod(0x3, 123, 0x11b) == 0xae);
    lemma_mulmod_two(0xae, 0x11b, 8);
    lemma_xor(0x15cu128, 0x11bu128);
    lemma_mulmod_three(0xae, 0x11b, 8);
    lemma_xor(0xaeu128, 0x47u128);
    assert(powmod(0x3, 124, 0x11b) == 0xe9);
    lemma_mulmod_two(0xe9, 0x11b, 8);
    lemma_xor(0x1d2u128, 0x11bu128);
    lemma_mulmod_three(0xe9, 0x11b, 8);
    lemma_xor(0xe9u128, 0xc9u128);
    assert(powmod(0x3, 125, 0x11b) == 0x20);
    lemma_mulmod_two(0x20, 0x11b, 8);
    lemma_mulmod_three(0x20, 0x11b, 8);
    lemma_xor(0x20u128, 0x40u128);
    assert(powmod(0x3, 126, 0x11b) == 0x60);
    lemma_mulmod_two(0x60, 0x11b, 8);
    lemma_mulmod_three(0x60, 0x11b, 8);
    lemma_xor(0x60u128, 0xc0u128);
    assert(powmod(0x3, 127, 0x11b) == 0xa0);
    lemma_mulmod_two(0xa0, 0x11b, 8);
    lemma_xor(0x140u128, 0x11bu128);
    lemma_mulmod_three(0xa0, 0x11b, 8);
    lemma_xor(0xa0u128, 0x5bu128);
    assert(powmod(0x3, 128, 0x11b) == 0xfb);
}

/// The powers `0x3^129` to `0x3^144` in `gf256_rijndael`.
#[verifier::rlimit(40)]
proof fn gf256_rijndael_powers_8()
    requires
        gf256_rijndael_gpow(128) == 0xfb,
    ensures
        gf256_rijndael_gpow(129) == 0x16,
        gf256_rijndael_gpow(130) == 0x3a,
        gf256_rijndael_gpow(131) == 0x4e,
        gf256_rijndael_gpow(132) == 0xd2,
        gf256_rijndael_gpow(133) == 0x6d,
        gf256_rijndael_gpow(134) == 0xb7,
        gf256_rijndael_gpow(135) == 0xc2,
        gf256_rijndael_gpow(136) == 0x5d,
        gf256_rijndael_gpow(137) == 0xe7,
        gf256_rijndael_gpow(138) == 0x32,
        gf256_rijndael_gpow(139) == 0x56,
        gf256_rijndael_gpow(140) == 0xfa,
        gf256_rijndael_gpow(141) == 0x15,
        gf256_rijndael_gpow(142) == 0x3f,
        gf256_rijndael_gpow(143) == 0x41,
        gf256_rijndael_gpow(144) == 0xc3,
{
    reveal(gf256_rijndael_gpow);
    gf256_rijndael_xor_facts();
    assert(bitlen(0x11b) == 9) by {
        reveal_with_fuel(bitlen, 11);
    }
    assert(exp2(8) == 0x100) by {
        reveal_with_fuel(exp2, 10);
    }
    lemma_mulmod_two(0xfb, 0x11b, 8);
    lemma_xor(0x1f6u128, 0x11bu128);
    lemma_mulmod_three(0xfb, 0x11b, 8);
    lemma_xor(0xfbu128, 0xedu128);
    assert(powmod(0x3, 129, 0x11b) == 0x16);
    lemma_mulmod_two(0x16, 0x11b, 8);
    lemma_mulmod_three(0x16, 0x11b, 8);
    lemma_xor(0x16u128, 0x2cu128);
    assert(powmod(0x3, 130, 0x11b) == 0x3a);
    lemma_mulmod_two(0x3a, 0x11b, 8);
    lemma_mulmod_three(0x3a, 0x11b, 8);
    lemma_xor(0x3au128, 0x74u128);
    assert(powmod(0x3, 131, 0x11b) == 0x4e);
    lemma_mulmod_two(0x4e, 0x11b, 8);
    lemma_mulmod_three(0x4e, 0x11b, 8);
    lemma_xor(0x4eu128, 0x9cu128);
    assert(powmod(0x3, 132, 0x11b) == 0xd2);
    lemma_mulmod_two(0xd2, 0x11b, 8);
    lemma_xor(0x1a4u128, 0x11bu128);
    lemma_mulmod_three(0xd2, 0x11b, 8);
    lemma_xor(0xd2u128, 0xbfu128);
    assert(powmod(0x3, 133, 0x11b) == 0x6d);
    lemma_mulmod_two(0x6d, 0x11b, 8);
    lemma_mulmod_three(0x6d, 0x11b, 8);
    lemma_xor(0x6du128, 0xdau128);
    assert(powmod(0x3, 134, 0x11b) == 0xb7);
    lemma_mulmod_two(0xb7, 0x11b, 8);
    lemma_xor(0x16eu128, 0x11bu128);
    lemma_mulmod_three(0xb7, 0x11b, 8);
    lemma_xor(0xb7u128, 0x75u128);
    assert(powmod(0x3, 135, 0x11b) == 0xc2);
    lemma_mulmod_two(0xc2, 0x11b, 8);
    lemma_xor(0x184u128, 0x11bu128);
    lemma_mulmod_three(0xc2, 0x11b, 8);
    lemma_xor(0xc2u128, 0x9fu128);
    assert(powmod(0x3, 136, 0x11b) == 0x5d);
    lemma_mulmod_two(0x5d, 0x11b, 8);
    lemma_mulmod_three(0x5d, 0x11b, 8);
    lemma_xor(0x5du128, 0xbau128);
    assert(powmod(0x3, 137, 0x11b) == 0xe7);
    lemma_mulmod_two(0xe7, 0x11b, 8);
    lemma_xor(0x1ceu128, 0x11bu128);
    lemma_mulmod_three(0xe7, 0x11b, 8);
    lemma_xor(0xe7u128, 0xd5u128);
    assert(powmod(0x3, 138, 0x11b) == 0x32);
    lemma_mulmod_two(0x32, 0x11b, 8);
    lemma_mulmod_three(0x32, 0x11b, 8);
    lemma_xor(0x32u128, 0x64u128);
    assert(powmod(0x3, 139, 0x11b) == 0x56);
    lemma_mulmod_two(0x56, 0x11b, 8);
    lemma_mulmod_three(0x56, 0x11b, 8);
    lemma_xor(0x56u128, 0xacu128);
    assert(powmod(0x3, 140, 0x11b) == 0xfa);
    lemma_mulmod_two(0xfa, 0x11b, 8);
    lemma_xor(0x1f4u128, 0x11bu128);
    lemma_mulmod_three(0xfa, 0x11b, 8);
    lemma_xor(0xfau128, 0xefu128);
    assert(powmod(0x3, 141, 0x11b) == 0x15);
    lemma_mulmod_two(0x15, 0x11b, 8);
    lemma_mulmod_three(0x15, 0x11b, 8);
    lemma_xor(0x15u128, 0x2au128);
    assert(powmod(0x3, 142, 0x11b) == 0x3f);
    lemma_mulmod_two(0x3f, 0x11b, 8);
    lemma_mulmod_three(0x3f, 0x11b, 8);
    lemma_xor(0x3fu128, 0x7eu128);
    assert(powmod(0x3, 143, 0x11b) == 0x41);
    lemma_mulmod_two(0x41, 0x11b, 8);
    lemma_mulmod_three(0x41, 0x11b, 8);
    lemma_xor(0x41u128, 0x82u128);
    assert(powmod(0x3, 144, 0x11b) == 0xc3);
}

/// The powers `0x3^145` to `0x3^160` in `gf256_rijndael`.
#[verifier::rlimit(40)]
proof fn gf256_rijndael_powers_9()
    requires
        gf256_rijndael_gpow(144) == 0xc3,
    ensures
        gf256_rijndael_gpow(145) == 0x5e,
        gf256_rijndael_gpow(146) == 0xe2,
        gf256_rijndael_gpow(147) == 0x3d,
        gf256_rijndael_gpow(148) == 0x47,
        gf256_rijndael_gpow(149) == 0xc9,
        gf256_rijndael_gpow(150) == 0x40,
        gf256_rijndael_gpow(151) == 0xc0,
        gf256_rijndael_gpow(152) == 0x5b,
        gf256_rijndael_gpow(153) == 0xed,
        gf256_rijndael_gpow(154) == 0x2c,
        gf256_rijndael_gpow(155) == 0x74,
        gf256_rijndael_gpow(156) == 0x9c,
        gf256_rijndael_gpow(157) == 0xbf,
        gf256_rijndael_gpow(158) == 0xda,
        gf256_rijndael_gpow(159) == 0x75,
        gf256_rijndael_gpow(160) == 0x9f,
{
    reveal(gf256_rijndael_gpow);
    gf256_rijndael_xor_facts();
    assert(bitlen(0x11b) == 9) by {
        reveal_with_fuel(bitlen, 11);
    }
    assert(exp2(8) == 0x100) by {
        reveal_with_fuel(exp2, 10);
    }
    lemma_mulmod_two(0xc3, 0x11b, 8);
    lemma_xor(0x186u128, 0x11bu128);
    lemma_mulmod_three(0xc3, 0x11b, 8);
    lemma_xor(0xc3u128, 0x9du128);
    assert(powmod(0x3, 145, 0x11b) == 0x5e);
    lemma_mulmod_two(0x5e, 0x11b, 8);
    lemma_mulmod_three(0x5e, 0x11b, 8);
    lemma_xor(0x5eu128, 0xbcu128);
    assert(powmod(0x3, 146, 0x11b) == 0xe2);
    lemma_mulmod_two(0xe2, 0x11b, 8);
    lemma_xor(0x1c4u128, 0x11bu128);
    lemma_mulmod_three(0xe2, 0x11b, 8);
    lemma_xor(0xe2u128, 0xdfu128);
    assert(powmod(0x3, 147, 0x11b) == 0x3d);
    lemma_mulmod_two(0x3d, 0x11b, 8);
    lemma_mulmod_three(0x3d, 0x11b, 8);
    lemma_xor(0x3du128, 0x7au128);
    assert(powmod(0x3, 148, 0x11b) == 0x47);
    lemma_mulmod_two(0x47, 0x11b, 8);
    lemma_mulmod_three(0x47, 0x11b, 8);
    lemma_xor(0x47u128, 0x8eu128);
    assert(powmod(0x3, 149, 0x11b) == 0xc9);
    lemma_mulmod_two(0xc9, 0x11b, 8);
    lemma_xor(0x192u128, 0x11bu128);
    lemma_mulmod_three(0xc9, 0x11b, 8);
    lemma_xor(0xc9u128, 0x89u128);
    assert(powmod(0x3, 150, 0x11b) == 0x40);
    lemma_mulmod_two(0x40, 0x11b, 8);
    lemma_mulmod_three(0x40, 0x11b, 8);
    lemma_xor(0x40u128, 0x80u128);
    assert(powmod(0x3, 151, 0x11b) == 0xc0);
    lemma_mulmod_two(0xc0, 0x11b, 8);
    lemma_xor(0x180u128, 0x11bu128);
    lemma_mulmod_three(0xc0, 0x11b, 8);
    lemma_xor(0xc0u128, 0x9bu128);
    assert(powmod(0x3, 152, 0x11b) == 0x5b);
    lemma_mulmod_two(0x5b, 0x11b, 8);
    lemma_mulmod_three(0x5b, 0x11b, 8);
    lemma_xor(0x5bu128, 0xb6u128);
    assert(powmod(0x3, 153, 0x11b) == 0xed);
    lemma_mulmod_two(0xed, 0x11b, 8);
    lemma_xor(0x1dau128, 0x11bu128);
    lemma_mulmod_three(0xed, 0x11b, 8);
    lemma_xor(0xedu128, 0xc1u128);
    assert(powmod(0x3, 154, 0x11b) == 0x2c);
    lemma_mulmod_two(0x2c, 0x11b, 8);
    lemma_mulmod_three(0x2c, 0x11b, 8);
    lemma_xor(0x2cu128, 0x58u128);
    assert(powmod(0x3, 155, 0x11b) == 0x74);
    lemma_mulmod_two(0x74, 0x11b, 8);
    lemma_mulmod_three(0x74, 0x11b, 8);
    lemma_xor(0x74u128, 0xe8u128);
    assert(powmod(0x3, 156, 0x11b) == 0x9c);
    lemma_mulmod_two(0x9c, 0x11b, 8);
    lemma_xor(0x138u128, 0x11bu128);
    lemma_mulmod_three(0x9c, 0x11b, 8);
    lemma_xor(0x9cu128, 0x23u128);
    assert(powmod(0x3, 157, 0x11b) == 0xbf);
    lemma_mulmod_two(0xbf, 0x11b, 8);
    lemma_xor(0x17eu128, 0x11bu128);
    lemma_mulmod_three(0xbf, 0x11b, 8);
    lemma_xor(0xbfu128, 0x65u128);
    assert(powmod(0x3, 158, 0x11b) == 0xda);
    lemma_mulmod_two(0xda, 0x11b, 8);
    lemma_xor(0x1b4u128, 0x11bu128);
    lemma_mulmod_three(0xda, 0x11b, 8);
    lemma_xor(0xdau128, 0xafu128);
    assert(powmod(0x3, 159, 0x11b) == 0x75);
    lemma_mulmod_two(0x75, 0x11b, 8);
    lemma_mulmod_three(0x75, 0x11b, 8);
    lemma_xor(0x75u128, 0xeau128);
    assert(powmod(0x3, 160, 0x11b) == 0x9f);
}

/// The powers `0x3^161` to `0x3^176` in `gf256_rijndael`.
#[verifier::rlimit(40)]
proof fn gf256_rijndael_powers_10()
    requires
        gf256_rijndael_gpow(160) == 0x9f,
    ensures
        gf256_rijndael_gpow(161) == 0xba,
        gf256_rijndael_gpow(162) == 0xd5,
        gf256_rijndael_gpow(163) == 0x64,
        gf256_rijndael_gpow(164) == 0xac,
        gf256_rijndael_gpow(165) == 0xef,
        gf256_rijndael_gpow(166) == 0x2a,
        gf256_rijndael_gpow(167) == 0x7e,
        gf256_rijndael_gpow(168) == 0x82,
        gf256_rijndael_gpow(169) == 0x9d,
        gf256_rijndael_gpow(170) == 0xbc,
        gf256_rijndael_gpow(171) == 0xdf,
        gf256_rijndael_gpow(172) == 0x7a,
        gf256_rijndael_gpow(173) == 0x8e,
        gf256_rijndael_gpow(174) == 0x89,
        gf256_rijndael_gpow(175) == 0x80,
        gf256_rijndael_gpow(176) == 0x9b,
{
    reveal(gf256_rijndael_gpow);
    gf256_rijndael_xor_facts();
    assert(bitlen(0x11b) == 9) by {
        reveal_with_fuel(bitlen, 11);
    }
    assert(exp2(8) == 0x100) by {
        reveal_with_fuel(exp2, 10);
    }
    lemma_mulmod_two(0x9f, 0x11b, 8);
    lemma_xor(0x13eu128, 0x11bu128);
    lemma_mulmod_three(0x9f, 0x11b, 8);
    lemma_xor(0x9fu128, 0x25u128);
    assert(powmod(0x3, 161, 0x11b) == 0xba);
    lemma_mulmod_two(0xba, 0x11b, 8);
    lemma_xor(0x174u128, 0x11bu128);
    lemma_mulmod_three(0xba, 0x11b, 8);
    lemma_xor(0xbau128, 0x6fu128);
    assert(powmod(0x3, 162, 0x11b) == 0xd5);
    lemma_mulmod_two(0xd5, 0x11b, 8);
    lemma_xor(0x1aau128, 0x11bu128);
    lemma_mulmod_three(0xd5, 0x11b, 8);
    lemma_xor(0xd5u128, 0xb1u128);
    assert(powmod(0x3, 163, 0x11b) == 0x64);
    lemma_mulmod_two(0x64, 0x11b, 8);
    lemma_mulmod_three(0x64, 0x11b, 8);
    lemma_xor(0x64u128, 0xc8u128);
    assert(powmod(0x3, 164, 0x11b) == 0xac);
    lemma_mulmod_two(0xac, 0x11b, 8);
    lemma_xor(0x158u128, 0x11bu128);
    lemma_mulmod_three(0xac, 0x11b, 8);
    lemma_xor(0xacu128, 0x43u128);
    assert(powmod(0x3, 165, 0x11b) == 0xef);
    lemma_mulmod_two(0xef, 0x11b, 8);
    lemma_xor(0x1deu128, 0x11bu128);
    lemma_mulmod_three(0xef, 0x11b, 8);
    lemma_xor(0xefu128, 0xc5u128);
    assert(powmod(0x3, 166, 0x11b) == 0x2a);
    lemma_mulmod_two(0x2a, 0x11b, 8);
    lemma_mulmod_three(0x2a, 0x11b, 8);
    lemma_xor(0x2au128, 0x54u128);
    assert(powmod(0x3, 167, 0x11b) == 0x7e);
    lemma_mulmod_two(0x7e, 0x11b, 8);
    lemma_mulmod_three(0x7e, 0x11b, 8);
    lemma_xor(0x7eu128, 0xfcu128);
    assert(powmod(0x3, 168, 0x11b) == 0x82);
    lemma_mulmod_two(0x82, 0x11b, 8);
    lemma_xor(0x104u128, 0x11bu128);
    lemma_mulmod_three(0x82, 0x11b, 8);
    lemma_xor(0x82u128, 0x1fu128);
    assert(powmod(0x3, 169, 0x11b) == 0x9d);
    lemma_mulmod_two(0x9d, 0x11b, 8);
    lemma_xor(0x13au128, 0x11bu128);
    lemma_mulmod_three(0x9d, 0x11b, 8);
    lemma_xor(0x9du128, 0x21u128);
    assert(powmod(0x3, 170, 0x11b) == 0xbc);
    lemma_mulmod_two(0xbc, 0x11b, 8);
    lemma_xor(0x178u128, 0x11bu128);
    lemma_mulmod_three(0xbc, 0x11b, 8);
    lemma_xor(0xbcu128, 0x63u128);
    assert(powmod(0x3, 171, 0x11b) == 0xdf);
    lemma_mulmod_two(0xdf, 0x11b, 8);
    lemma_xor(0x1beu128, 0x11bu128);
    lemma_mulmod_three(0xdf, 0x11b, 8);
    lemma_xor(0xdfu128, 0xa5u128);
    assert(powmod(0x3, 172, 0x11b) == 0x7a);
    lemma_mulmod_two(0x7a, 0x11b, 8);
    lemma_mulmod_three(0x7a, 0x11b, 8);
    lemma_xor(0x7au128, 0xf4u128);
    assert(powmod(0x3, 173, 0x11b) == 0x8e);
    lemma_mulmod_two(0x8e, 0x11b, 8);
    lemma_xor(0x11cu128, 0x11bu128);
    lemma_mulmod_three(0x8e, 0x11b, 8);
    lemma_xor(0x8eu128, 0x7u128);
    assert(powmod(0x3, 174, 0x11b) == 0x89);
    lemma_mulmod_two(0x89, 0x11b, 8);
    lemma_xor(0x112u128, 0x11bu128);
    lemma_mulmod_three(0x89, 0x11b, 8);
    lemma_xor(0x89u128, 0x9u128);
    assert(powmod(0x3, 175, 0x11b) == 0x80);
    lemma_mulmod_two(0x80, 0x11b, 8);
    lemma_xor(0x100u128, 0x11bu128);
    lemma_mulmod_three(0x80, 0x11b, 8);
    lemma_xor(0x80u128, 0x1bu128);
    assert(powmod(0x3, 176, 0x11b) == 0x9b);
}

/// The powers `0x3^177` to `0x3^192` in `gf256_rijndael`.
#[verifier::rlimit(40)]
proof fn gf256_rijndael_powers_11()
    requires
        gf256_rijndael_gpow(176) == 0x9b,
    ensures
        gf256_rijndael_gpow(177) == 0xb6,
        gf256_rijndael_gpow(178) == 0xc1,
        gf256_rijndael_gpow(179) == 0x58,
        gf256_rijndael_gpow(180) == 0xe8,
        gf256_rijndael_gpow(181) == 0x23,
        gf256_rijndael_gpow(182) == 0x65,
        gf256_rijndael_gpow(183) == 0xaf,
        gf256_rijndael_gpow(184) == 0xea,
        gf256_rijndael_gpow(185) == 0x25,
        gf256_rijndael_gpow(186) == 0x6f,
        gf256_rijndael_gpow(187) == 0xb1,
        gf256_rijndael_gpow(188) == 0xc8,
        gf256_rijndael_gpow(189) == 0x43,
        gf256_rijndael_gpow(190) == 0xc5,
        gf256_rijndael_gpow(191) == 0x54,
        gf256_rijndael_gpow(192) == 0xfc,
{
    reveal(gf256_rijndael_gpow);
    gf256_rijndael_xor_facts();
    assert(bitlen(0x11b) == 9) by {
        reveal_with_fuel(bitlen, 11);
    }
    assert(exp2(8) == 0x100) by {
        reveal_with_fuel(exp2, 10);
    }
    lemma_mulmod_two(0x9b, 0x11b, 8);
    lemma_xor(0x136u128, 0x11bu128);
    lemma_mulmod_three(0x9b, 0x11b, 8);
    lemma_xor(0x9bu128, 0x2du128);
    assert(powmod(0x3, 177, 0x11b) == 0xb6);
    lemma_mulmod_two(0xb6, 0x11b, 8);
    lemma_xor(0x16cu128, 0x11bu128);
    lemma_mulmod_three(0xb6, 0x11b, 8);
    lemma_xor(0xb6u128, 0x77u128);
    assert(powmod(0x3, 178, 0x11b) == 0xc1);
    lemma_mulmod_two(0xc1, 0x11b, 8);
    lemma_xor(0x182u128, 0x11bu128);
    lemma_mulmod_three(0xc1, 0x11b, 8);
    lemma_xor(0xc1u128, 0x99u128);
    assert(powmod(0x3, 179, 0x11b) == 0x58);
    lemma_mulmod_two(0x58, 0x11b, 8);
    lemma_mulmod_three(0x58, 0x11b, 8);
    lemma_xor(0x58u128, 0xb0u128);
    assert(powmod(0x3, 180, 0x11b) == 0xe8);
    lemma_mulmod_two(0xe8, 0x11b, 8);
    lemma_xor(0x1d0u128, 0x11bu128);
    lemma_mulmod_three(0xe8, 0x11b, 8);
    lemma_xor(0xe8u128, 0xcbu128);
    assert(powmod(0x3, 181, 0x11b) == 0x23);
    lemma_mulmod_two(0x23, 0x11b, 8);
    lemma_mulmod_three(0x23, 0x11b, 8);
    lemma_xor(0x23u128, 0x46u128);
    assert(powmod(0x3, 182, 0x11b) == 0x65);
    lemma_mulmod_two(0x65, 0x11b, 8);
    lemma_mulmod_three(0x65, 0x11b, 8);
    lemma_xor(0x65u128, 0xcau128);
    assert(powmod(0x3, 183, 0x11b) == 0xaf);
    lemma_mulmod_two(0xaf, 0x11b, 8);
    lemma_xor(0x15eu128, 0x11bu128);
    lemma_mulmod_three(0xaf, 0x11b, 8);
    lemma_xor(0xafu128, 0x45u128);
    assert(powmod(0x3, 184, 0x11b) == 0xea);
    lemma_mulmod_two(0xea, 0x11b, 8);
    lemma_xor(0x1d4u128, 0x11bu128);
    lemma_mulmod_three(0xea, 0x11b, 8);
    lemma_xor(0xeau128, 0xcfu128);
    assert(powmod(0x3, 185, 0x11b) == 0x25);
    lemma_mulmod_two(0x25, 0x11b, 8);
    lemma_mulmod_three(0x25, 0x11b, 8);
    lemma_xor(0x25u128, 0x4au128);
    assert(powmod(0x3, 186, 0x11b) == 0x6f);
    lemma_mulmod_two(0x6f, 0x11b, 8);
    lemma_mulmod_three(0x6f, 0x11b, 8);
    lemma_xor(0x6fu128, 0xdeu128);
    assert(powmod(0x3, 187, 0x11b) == 0xb1);
    lemma_mulmod_two(0xb1, 0x11b, 8);
    lemma_xor(0x162u128, 0x11bu128);
    lemma_mulmod_three(0xb1, 0x11b, 8);
    lemma_xor(0xb1u128, 0x79u128);
    assert(powmod(0x3, 188, 0x11b) == 0xc8);
    lemma_mulmod_two(0xc8, 0x11b, 8);
    lemma_xor(0x190u128, 0x11bu128);
    lemma_mulmod_three(0xc8, 0x11b, 8);
    lemma_xor(0xc8u128, 0x8bu128);
    assert(powmod(0x3, 189, 0x11b) == 0x43);
    lemma_mulmod_two(0x43, 0x11b, 8);
    lemma_mulmod_three(0x43, 0x11b, 8);
    lemma_xor(0x43u128, 0x86u128);
    assert(powmod(0x3, 190, 0x11b) == 0xc5);
    lemma_mulmod_two(0xc5, 0x11b, 8);
    lemma_xor(0x18au128, 0x11bu128);
    lemma_mulmod_three(0xc5, 0x11b, 8);
    lemma_xor(0xc5u128, 0x91u128);
    assert(powmod(0x3, 191, 0x11b) == 0x54);
    lemma_mulmod_two(0x54, 0x11b, 8);
    lemma_mulmod_three(0x54, 0x11b, 8);
    lemma_xor(0x54u128, 0xa8u128);
    assert(powmod(0x3, 192, 0x11b) == 0xfc);
}

/// The powers `0x3^193` to `0x3^208` in `gf256_rijndael`.
#[verifier::rlimit(40)]
proof fn gf256_rijndael_powers_12()
    requires
        gf256_rijndael_gpow(192) == 0xfc,
    ensures
        gf256_rijndael_gpow(193) == 0x1f,
        gf256_rijndael_gpow(194) == 0x21,
        gf256_rijndael_gpow(195) == 0x63,
        gf256_rijndael_gpow(196) == 0xa5,
        gf256_rijndael_gpow(197) == 0xf4,
        gf256_rijndael_gpow(198) == 0x7,
        gf256_rijndael_gpow(199) == 0x9,
        gf256_rijndael_gpow(200) == 0x1b,
        gf256_rijndael_gpow(201) == 0x2d,
        gf256_rijndael_gpow(202) == 0x77,
        gf256_rijndael_gpow(203) == 0x99,
        gf256_rijndael_gpow(204) == 0xb0,
        gf256_rijndael_gpow(205) == 0xcb,
        gf256_rijndael_gpow(206) == 0x46,
        gf256_rijndael_gpow(207) == 0xca,
        gf256_rijndael_gpow(208) == 0x45,
{
    reveal(gf256_rijndael_gpow);
    gf256_rijndael_xor_facts();
    assert(bitlen(0x11b) == 9) by {
        reveal_with_fuel(bitlen, 11);
    }
    assert(exp2(8) == 0x100) by {
        reveal_with_fuel(exp2, 10);
    }
    lemma_mulmod_two(0xfc, 0x11b, 8);
    lemma_xor(0x1f8u128, 0x11bu128);
    lemma_mulmod_three(0xfc, 0x11b, 8);
    lemma_xor(0xfcu128, 0xe3u128);
    assert(powmod(0x3, 193, 0x11b) == 0x1f);
    lemma_mulmod_two(0x1f, 0x11b, 8);
    lemma_mulmod_three(0x1f, 0x11b, 8);
    lemma_xor(0x1fu128, 0x3eu128);
    assert(powmod(0x3, 194, 0x11b) == 0x21);
    lemma_mulmod_two(0x21, 0x11b, 8);
    lemma_mulmod_three(0x21, 0x11b, 8);
    lemma_xor(0x21u128, 0x42u128);
    assert(powmod(0x3, 195, 0x11b) == 0x63);
    lemma_mulmod_two(0x63, 0x11b, 8);
    lemma_mulmod_three(0x63, 0x11b, 8);
    lemma_xor(0x63u128, 0xc6u128);
    assert(powmod(0x3, 196, 0x11b) == 0xa5);
    lemma_mulmod_two(0xa5, 0x11b, 8);
    lemma_xor(0x14au128, 0x11bu128);
    lemma_mulmod_three(0xa5, 0x11b, 8);
    lemma_xor(0xa5u128, 0x51u128);
    assert(powmod(0x3, 197, 0x11b) == 0xf4);
    lemma_mulmod_two(0xf4, 0x11b, 8);
    lemma_xor(0x1e8u128, 0x11bu128);
    lemma_mulmod_three(0xf4, 0x11b, 8);
    lemma_xor(0xf4u128, 0xf3u128);
    assert(powmod(0x3, 198, 0x11b) == 0x7);
    lemma_mulmod_two(0x7, 0x11b, 8);
    lemma_mulmod_three(0x7, 0x11b, 8);
    lemma_xor(0x7u128, 0xeu128);
    assert(powmod(0x3, 199, 0x11b) == 0x9);
    lemma_mulmod_two(0x9, 0x11b, 8);
    lemma_mulmod_three(0x9, 0x11b, 8);
    lemma_xor(0x9u128, 0x12u128);
    assert(powmod(0x3, 200, 0x11b) == 0x1b);
    lemma_mulmod_two(0x1b, 0x11b, 8);
    lemma_mulmod_three(0x1b, 0x11b, 8);
    lemma_xor(0x1bu128, 0x36u128);
    assert(powmod(0x3, 201, 0x11b) == 0x2d);
    lemma_mulmod_two(0x2d, 0x11b, 8);
    lemma_mulmod_three(0x2d, 0x11b, 8);
    lemma_xor(0x2du128, 0x5au128);
    assert(powmod(0x3, 202, 0x11b) == 0x77);
    lemma_mulmod_two(0x77, 0x11b, 8);
    lemma_mulmod_three(0x77, 0x11b, 8);
    lemma_xor(0x77u128, 0xeeu128);
    assert(powmod(0x3, 203, 0x11b) == 0x99);
    lemma_mulmod_two(0x99, 0x11b, 8);
    lemma_xor(0x132u128, 0x11bu128);
    lemma_mulmod_three(0x99, 0x11b, 8);
    lemma_xor(0x99u128, 0x29u128);
    assert(powmod(0x3, 204, 0x11b) == 0xb0);
    lemma_mulmod_two(0xb0, 0x11b, 8);
    lemma_xor(0x160u128, 0x11bu128);
    lemma_mulmod_three(0xb0, 0x11b, 8);
    lemma_xor(0xb0u128, 0x7bu128);
    assert(powmod(0x3, 205, 0x11b) == 0xcb);
    lemma_mulmod_two(0xcb, 0x11b, 8);
    lemma_xor(0x196u128, 0x11bu128);
    lemma_mulmod_three(0xcb, 0x11b, 8);
    lemma_xor(0xcbu128, 0x8du128);
    assert(powmod(0x3, 206, 0x11b) == 0x46);
    lemma_mulmod_two(0x46, 0x11b, 8);
    lemma_mulmod_three(0x46, 0x11b, 8);
    lemma_xor(0x46u128, 0x8cu128);
    assert(powmod(0x3, 207, 0x11b) == 0xca);
    lemma_mulmod_two(0xca, 0x11b, 8);
    lemma_xor(0x194u128, 0x11bu128);
    lemma_mulmod_three(0xca, 0x11b, 8);
    lemma_xor(0xcau128, 0x8fu128);
    assert(powmod(0x3, 208, 0x11b) == 0x45);
}

/// The powers `0x3^209` to `0x3^224` in `gf256_rijndael`.
#[verifier::rlimit(40)]
proof fn gf256_rijndael_powers_13()
    requires
        gf256_rijndael_gpow(208) == 0x45,
    ensures
        gf256_rijndael_gpow(209) == 0xcf,
        gf256_rijndael_gpow(210) == 0x4a,
        gf256_rijndael_gpow(211) == 0xde,
        gf256_rijndael_gpow(212) == 0x79,
        gf256_rijndael_gpow(213) == 0x8b,
        gf256_rijndael_gpow(214) == 0x86,
        gf256_rijndael_gpow(215) == 0x91,
        gf256_rijndael_gpow(216) == 0xa8,
        gf256_rijndael_gpow(217) == 0xe3,
        gf256_rijndael_gpow(218) == 0x3e,
        gf256_rijndael_gpow(219) == 0x42,
        gf256_rijndael_gpow(220) == 0xc6,
        gf256_rijndael_gpow(221) == 0x51,
        gf256_rijndael_gpow(222) == 0xf3,
        gf256_rijndael_gpow(223) == 0xe,
        gf256_rijndael_gpow(224) == 0x12,
{
    reveal(gf256_rijndael_gpow);
    gf256_rijndael_xor_facts();
    assert(bitlen(0x11b) == 9) by {
        reveal_with_fuel(bitlen, 11);
    }
    assert(exp2(8) == 0x100) by {
        reveal_with_fuel(exp2, 10);
    }
    lemma_mulmod_two(0x45, 0x11b, 8);
    lemma_mulmod_three(0x45, 0x11b, 8);
    lemma_xor(0x45u128, 0x8au128);
    assert(powmod(0x3, 209, 0x11b) == 0xcf);
    lemma_mulmod_two(0xcf, 0x11b, 8);
    lemma_xor(0x19eu128, 0x11bu128);
    lemma_mulmod_three(0xcf, 0x11b, 8);
    lemma_xor(0xcfu128, 0x85u128);
    assert(powmod(0x3, 210, 0x11b) == 0x4a);
    lemma_mulmod_two(0x4a, 0x11b, 8);
    lemma_mulmod_three(0x4a, 0x11b, 8);
    lemma_xor(0x4au128, 0x94u128);
    assert(powmod(0x3, 211, 0x11b) == 0xde);
    lemma_mulmod_two(0xde, 0x11b, 8);
    lemma_xor(0x1bcu128, 0x11bu128);
    lemma_mulmod_three(0xde, 0x11b, 8);
    lemma_xor(0xdeu128, 0xa7u128);
    assert(powmod(0x3, 212, 0x11b) == 0x79);
    lemma_mulmod_two(0x79, 0x11b, 8);
    lemma_mulmod_three(0x79, 0x11b, 8);
    lemma_xor(0x79u128, 0xf2u128);
    assert(powmod(0x3, 213, 0x11b) == 0x8b);
    lemma_mulmod_two(0x8b, 0x11b, 8);
    lemma_xor(0x116u128, 0x11bu128);
    lemma_mulmod_three(0x8b, 0x11b, 8);
    lemma_xor(0x8bu128, 0xdu128);
    assert(powmod(0x3, 214, 0x11b) == 0x86);
    lemma_mulmod_two(0x86, 0x11b, 8);
    lemma_xor(0x10cu128, 0x11bu128);
    lemma_mulmod_three(0x86, 0x11b, 8);
    lemma_xor(0x86u128, 0x17u128);
    assert(powmod(0x3, 215, 0x11b) == 0x91);
    lemma_mulmod_two(0x91, 0x11b, 8);
    lemma_xor(0x122u128, 0x11bu128);
    lemma_mulmod_three(0x91, 0x11b, 8);
    lemma_xor(0x91u128, 0x39u128);
    assert(powmod(0x3, 216, 0x11b) == 0xa8);
    lemma_mulmod_two(0xa8, 0x11b, 8);
    lemma_xor(0x150u128, 0x11bu128);
    lemma_mulmod_three(0xa8, 0x11b, 8);
    lemma_xor(0xa8u128, 0x4bu128);
    assert(powmod(0x3, 217, 0x11b) == 0xe3);
    lemma_mulmod_two(0xe3, 0x11b, 8);
    lemma_xor(0x1c6u128, 0x11bu128);
    lemma_mulmod_three(0xe3, 0x11b, 8);
    lemma_xor(0xe3u128, 0xddu128);
    assert(powmod(0x3, 218, 0x11b) == 0x3e);
    lemma_mulmod_two(0x3e, 0x11b, 8);
    lemma_mulmod_three(0x3e, 0x11b, 8);
    lemma_xor(0x3eu128, 0x7cu128);
    assert(powmod(0x3, 219, 0x11b) == 0x42);
    lemma_mulmod_two(0x42, 0x11b, 8);
    lemma_mulmod_three(0x42, 0x11b, 8);
    lemma_xor(0x42u128, 0x84u128);
    assert(powmod(0x3, 220, 0x11b) == 0xc6);
    lemma_mulmod_two(0xc6, 0x11b, 8);
    lemma_xor(0x18cu128, 0x11bu128);
    lemma_mulmod_three(0xc6, 0x11b, 8);
    lemma_xor(0xc6u128, 0x97u128);
    assert(powmod(0x3, 221, 0x11b) == 0x51);
    lemma_mulmod_two(0x51, 0x11b, 8);
    lemma_mulmod_three(0x51, 0x11b, 8);
    lemma_xor(0x51u128, 0xa2u128);
    assert(powmod(0x3, 222, 0x11b) == 0xf3);
    lemma_mulmod_two(0xf3, 0x11b, 8);
    lemma_xor(0x1e6u128, 0x11bu128);
    lemma_mulmod_three(0xf3, 0x11b, 8);
    lemma_xor(0xf3u128, 0xfdu128);
    assert(powmod(0x3, 223, 0x11b) == 0xe);
    lemma_mulmod_two(0xe, 0x11b, 8);
    lemma_mulmod_three(0xe, 0x11b, 8);
    lemma_xor(0xeu128, 0x1cu128);
    assert(powmod(0x3, 224, 0x11b) == 0x12);
}

/// The powers `0x3^225` to `0x3^240` in `gf256_rijndael`.
#[verifier::rlimit(40)]
proof fn gf256_rijndael_powers_14()
    requires
        gf256_rijndael_gpow(224) == 0x12,
    ensures
        gf256_rijndael_gpow(225) == 0x36,
        gf256_rijndael_gpow(226) == 0x5a,
        gf256_rijndael_gpow(227) == 0xee,
        gf256_rijndael_gpow(228) == 0x29,
        gf256_rijndael_gpow(229) == 0x7b,
        gf256_rijndael_gpow(230) == 0x8d,
        gf256_rijndael_gpow(231) == 0x8c,
        gf256_rijndael_gpow(232) == 0x8f,
        gf256_rijndael_gpow(233) == 0x8a,
        gf256_rijndael_gpow(234) == 0x85,
        gf256_rijndael_gpow(235) == 0x94,
        gf256_rijndael_gpow(236) == 0xa7,
        gf256_rijndael_gpow(237) == 0xf2,
        gf256_rijndael_gpow(238) == 0xd,
        gf256_rijndael_gpow(239) == 0x17,
        gf256_rijndael_gpow(240) == 0x39,
{
    reveal(gf256_rijndael_gpow);
    gf256_rijndael_xor_facts();
    assert(bitlen(0x11b) == 9) by {
        reveal_with_fuel(bitlen, 11);
    }
    assert(exp2(8) == 0x100) by {
        reveal_with_fuel(exp2, 10);
    }
    lemma_mulmod_two(0x12, 0x11b, 8);
    lemma_mulmod_three(0x12, 0x11b, 8);
    lemma_xor(0x12u128, 0x24u128);
    assert(powmod(0x3, 225, 0x11b) == 0x36);
    lemma_mulmod_two(0x36, 0x11b, 8);
    lemma_mulmod_three(0x36, 0x11b, 8);
    lemma_xor(0x36u128, 0x6cu128);
    assert(powmod(0x3, 226, 0x11b) == 0x5a);
    lemma_mulmod_two(0x5a, 0x11b, 8);
    lemma_mulmod_three(0x5a, 0x11b, 8);
    lemma_xor(0x5au128, 0xb4u128);
    assert(powmod(0x3, 227, 0x11b) == 0xee);
    lemma_mulmod_two(0xee, 0x11b, 8);
    lemma_xor(0x1dcu128, 0x11bu128);
    lemma_mulmod_three(0xee, 0x11b, 8);
    lemma_xor(0xeeu128, 0xc7u128);
    assert(powmod(0x3, 228, 0x11b) == 0x29);
    lemma_mulmod_two(0x29, 0x11b, 8);
    lemma_mulmod_three(0x29, 0x11b, 8);
    lemma_xor(0x29u128, 0x52u128);
    assert(powmod(0x3, 229, 0x11b) == 0x7b);
    lemma_mulmod_two(0x7b, 0x11b, 8);
    lemma_mulmod_three(0x7b, 0x11b, 8);
    lemma_xor(0x7bu128, 0xf6u128);
    assert(powmod(0x3, 230, 0x11b) == 0x8d);
    lemma_mulmod_two(0x8d, 0x11b, 8);
    lemma_xor(0x11au128, 0x11bu128);
    lemma_mulmod_three(0x8d, 0x11b, 8);
    lemma_xor(0x8du128, 0x1u128);
    assert(powmod(0x3, 231, 0x11b) == 0x8c);
    lemma_mulmod_two(0x8c, 0x11b, 8);
    lemma_xor(0x118u128, 0x11bu128);
    lemma_mulmod_three(0x8c, 0x11b, 8);
    lemma_xor(0x8cu128, 0x3u128);
    assert(powmod(0x3, 232, 0x11b) == 0x8f);
    lemma_mulmod_two(0x8f, 0x11b, 8);
    lemma_xor(0x11eu128, 0x11bu128);
    lemma_mulmod_three(0x8f, 0x11b, 8);
    lemma_xor(0x8fu128, 0x5u128);
    assert(powmod(0x3, 233, 0x11b) == 0x8a);
    lemma_mulmod_two(0x8a, 0x11b, 8);
    lemma_xor(0x114u128, 0x11bu128);
    lemma_mulmod_three(0x8a, 0x11b, 8);
    lemma_xor(0x8au128, 0xfu128);
    assert(powmod(0x3, 234, 0x11b) == 0x85);
    lemma_mulmod_two(0x85, 0x11b, 8);
    lemma_xor(0x10au128, 0x11bu128);
    lemma_mulmod_three(0x85, 0x11b, 8);
    lemma_xor(0x85u128, 0x11u128);
    assert(powmod(0x3, 235, 0x11b) == 0x94);
    lemma_mulmod_two(0x94, 0x11b, 8);
    lemma_xor(0x128u128, 0x11bu128);
    lemma_mulmod_three(0x94, 0x11b, 8);
    lemma_xor(0x94u128, 0x33u128);
    assert(powmod(0x3, 236, 0x11b) == 0xa7);
    lemma_mulmod_two(0xa7, 0x11b, 8);
    lemma_xor(0x14eu128, 0x11bu128);
    lemma_mulmod_three(0xa7, 0x11b, 8);
    lemma_xor(0xa7u128, 0x55u128);
    assert(powmod(0x3, 237, 0x11b) == 0xf2);
    lemma_mulmod_two(0xf2, 0x11b, 8);
    lemma_xor(0x1e4u128, 0x11bu128);
    lemma_mulmod_three(0xf2, 0x11b, 8);
    lemma_xor(0xf2u128, 0xffu128);
    assert(powmod(0x3, 238, 0x11b) == 0xd);
    lemma_mulmod_two(0xd, 0x11b, 8);
    lemma_mulmod_three(0xd, 0x11b, 8);
    lemma_xor(0xdu128, 0x1au128);
    assert(powmod(0x3, 239, 0x11b) == 0x17);
    lemma_mulmod_two(0x17, 0x11b, 8);
    lemma_mulmod_three(0x17, 0x11b, 8);
    lemma_xor(0x17u128, 0x2eu128);
    assert(powmod(0x3, 240, 0x11b) == 0x39);
}

/// The powers `0x3^241` to `0x3^255` in `gf256_rijndael`.
#[verifier::rlimit(40)]
proof fn gf256_rijndael_powers_15()
    requires
        gf256_rijndael_gpow(240) == 0x39,
    ensures
        gf256_rijndael_gpow(241) == 0x4b,
        gf256_rijndael_gpow(242) == 0xdd,
        gf256_rijndael_gpow(243) == 0x7c,
        gf256_rijndael_gpow(244) == 0x84,
        gf256_rijndael_gpow(245) == 0x97,
        gf256_rijndael_gpow(246) == 0xa2,
        gf256_rijndael_gpow(247) == 0xfd,
        gf256_rijndael_gpow(248) == 0x1c,
        gf256_rijndael_gpow(249) == 0x24,
        gf256_rijndael_gpow(250) == 0x6c,
        gf256_rijndael_gpow(251) == 0xb4,
        gf256_rijndael_gpow(252) == 0xc7,
        gf256_rijndael_gpow(253) == 0x52,
        gf256_rijndael_gpow(254) == 0xf6,
        gf256_rijndael_gpow(255) == 0x1,
{
    reveal(gf256_rijndael_gpow);
    gf256_rijndael_xor_facts();
    assert(bitlen(0x11b) == 9) by {
        reveal_with_fuel(bitlen, 11);
    }
    assert(exp2(8) == 0x100) by {
        reveal_with_fuel(exp2, 10);
    }
    lemma_mulmod_two(0x39, 0x11b, 8);
    lemma_mulmod_three(0x39, 0x11b, 8);
    lemma_xor(0x39u128, 0x72u128);
    assert(powmod(0x3, 241, 0x11b) == 0x4b);
    lemma_mulmod_two(0x4b, 0x11b, 8);
    lemma_mulmod_three(0x4b, 0x11b, 8);
    lemma_xor(0x4bu128, 0x96u128);
    assert(powmod(0x3, 242, 0x11b) == 0xdd);
    lemma_mulmod_two(0xdd, 0x11b, 8);
    lemma_xor(0x1bau128, 0x11bu128);
    lemma_mulmod_three(0xdd, 0x11b, 8);
    lemma_xor(0xddu128, 0xa1u128);
    assert(powmod(0x3, 243, 0x11b) == 0x7c);
    lemma_mulmod_two(0x7c, 0x11b, 8);
    lemma_mulmod_three(0x7c, 0x11b, 8);
    lemma_xor(0x7cu128, 0xf8u128);
    assert(powmod(0x3, 244, 0x11b) == 0x84);
    lemma_mulmod_two(0x84, 0x11b, 8);
    lemma_xor(0x108u128, 0x11bu128);
    lemma_mulmod_three(0x84, 0x11b, 8);
    lemma_xor(0x84u128, 0x13u128);
    assert(powmod(0x3, 245, 0x11b) == 0x97);
    lemma_mulmod_two(0x97, 0x11b, 8);
    lemma_xor(0x12eu128, 0x11bu128);
    lemma_mulmod_three(0x97, 0x11b, 8);
    lemma_xor(0x97u128, 0x35u128);
    assert(powmod(0x3, 246, 0x11b) == 0xa2);
    lemma_mulmod_two(0xa2, 0x11b, 8);
    lemma_xor(0x144u128, 0x11bu128);
    lemma_mulmod_three(0xa2, 0x11b, 8);
    lemma_xor(0xa2u128, 0x5fu128);
    assert(powmod(0x3, 247, 0x11b) == 0xfd);
    lemma_mulmod_two(0xfd, 0x11b, 8);
    lemma_xor(0x1fau128, 0x11bu128);
    lemma_mulmod_three(0xfd, 0x11b, 8);
    lemma_xor(0xfdu128, 0xe1u128);
    assert(powmod(0x3, 248, 0x11b) == 0x1c);
    lemma_mulmod_two(0x1c, 0x11b, 8);
    lemma_mulmod_three(0x1c, 0x11b, 8);
    lemma_xor(0x1cu128, 0x38u128);
    assert(powmod(0x3, 249, 0x11b) == 0x24);
    lemma_mulmod_two(0x24, 0x11b, 8);
    lemma_mulmod_three(0x24, 0x11b, 8);
    lemma_xor(0x24u128, 0x48u128);
    assert(powmod(0x3, 250, 0x11b) == 0x6c);
    lemma_mulmod_two(0x6c, 0x11b, 8);
    lemma_mulmod_three(0x6c, 0x11b, 8);
    lemma_xor(0x6cu128, 0xd8u128);
    assert(powmod(0x3, 251, 0x11b) == 0xb4);
    lemma_mulmod_two(0xb4, 0x11b, 8);
    lemma_xor(0x168u128, 0x11bu128);
    lemma_mulmod_three(0xb4, 0x11b, 8);
    lemma_xor(0xb4u128, 0x73u128);
    assert(powmod(0x3, 252, 0x11b) == 0xc7);
    lemma_mulmod_two(0xc7, 0x11b, 8);
    lemma_xor(0x18eu128, 0x11bu128);
    lemma_mulmod_three(0xc7, 0x11b, 8);
    lemma_xor(0xc7u128, 0x95u128);
    assert(powmod(0x3, 253, 0x11b) == 0x52);
    lemma_mulmod_two(0x52, 0x11b, 8);
    lemma_mulmod_three(0x52, 0x11b, 8);
    lemma_xor(0x52u128, 0xa4u128);
    assert(powmod(0x3, 254, 0x11b) == 0xf6);
    lemma_mulmod_two(0xf6, 0x11b, 8);
    lemma_xor(0x1ecu128, 0x11bu128);
    lemma_mulmod_three(0xf6, 0x11b, 8);
    lemma_xor(0xf6u128, 0xf7u128);
    assert(powmod(0x3, 255, 0x11b) == 0x1);
}

/// The discrete logarithm in `gf256_rijndael`: the exponent `k < 255` with `0x3^k == b`.
pub open spec fn gf256_rijndael_log(b: nat) -> nat {
    if b == 0x1 {
        0
    } else if b == 0x2 {
        25
    } else if b == 0x3 {
        1
    } else if b == 0x4 {
        50
    } else if b == 0x5 {
        2
    } else if b == 0x6 {
        26
    } else if b == 0x7 {
        198
    } else if b == 0x8 {
        75
    } else if b == 0x9 {
        199
    } else if b == 0xa {
        27
    } else if b == 0xb {
        104
    } else if b == 0xc {
        51
    } else if b == 0xd {
        238
    } else if b == 0xe {
        223
    } else if b == 0xf {
        3
    } else if b == 0x10 {
        100
    } else if b == 0x11 {
        4
    } else if b == 0x12 {
        224
    } else if b == 0x13 {
        14
    } else if b == 0x14 {
        52
    } else if b == 0x15 {
        141
    } else if b == 0x16 {
        129
    } else if b == 0x17 {
        239
    } else if b == 0x18 {
        76
    } else if b == 0x19 {
        113
    } else if b == 0x1a {
        8
    } else if b == 0x1b {
        200
    } else if b == 0x1c {
        248
    } else if b == 0x1d {
        105
    } else if b == 0x1e {
        28
    } else if b == 0x1f {
        193
    } else if b == 0x20 {
        125
    } else if b == 0x21 {
        194
    } else if b == 0x22 {
        29
    } else if b == 0x23 {
        181
    } else if b == 0x24 {
        249
    } else if b == 0x25 {
        185
    } else if b == 0x26 {
        39
    } else if b == 0x27 {
        106
    } else if b == 0x28 {
        77
    } else if b == 0x29 {
        228
    } else if b == 0x2a {
        166
    } else if b == 0x2b {
        114
    } else if b == 0x2c {
        154
    } else if b == 0x2d {
        201
    } else if b == 0x2e {
        9
    } else if b == 0x2f {
        120
    } else if b == 0x30 {
        101
    } else if b == 0x31 {
        47
    } else if b == 0x32 {
        138
    } else if b == 0x33 {
        5
    } else if b == 0x34 {
        33
    } else if b == 0x35 {
        15
    } else if b == 0x36 {
        225
    } else if b == 0x37 {
        36
    } else if b == 0x38 {
        18
    } else if b == 0x39 {
        240
    } else if b == 0x3a {
        130
    } else if b == 0x3b {
        69
    } else if b == 0x3c {
        53
    } else if b == 0x3d {
        147
    } else if b == 0x3e {
        218
    } else if b == 0x3f {
        142
    } else if b == 0x40 {
        150
    } else if b == 0x41 {
        143
    } else if b == 0x42 {
        219
    } else if b == 0x43 {
        189
    } else if b == 0x44 {
        54
    } else if b == 0x45 {
        208
    } else if b == 0x46 {
        206
    } else if b == 0x47 {
        148
    } else if b == 0x48 {
        19
    } else if b == 0x49 {
        92
    } else if b == 0x4a {
        210
    } else if b == 0x4b {
        241
    } else if b == 0x4c {
        64
    } else if b == 0x4d {
        70
    } else if b == 0x4e {
        131
    } else if b == 0x4f {
        56
    } else if b == 0x50 {
        102
    } else if b == 0x51 {
        221
    } else if b == 0x52 {
        253
    } else if b == 0x53 {
        48
    } else if b == 0x54 {
        191
    } else if b == 0x55 {
        6
    } else if b == 0x56 {
        139
    } else if b == 0x57 {
        98
    } else if b == 0x58 {
        179
    } else if b == 0x59 {
        37
    } else if b == 0x5a {
        226
    } else if b == 0x5b {
        152
    } else if b == 0x5c {
        34
    } else if b == 0x5d {
        136
    } else if b == 0x5e {
        145
    } else if b == 0x5f {
        16
    } else if b == 0x60 {
        126
    } else if b == 0x61 {
        110
    } else if b == 0x62 {
        72
    } else if b == 0x63 {
        195
    } else if b == 0x64 {
        163
    } else if b == 0x65 {
        182
    } else if b == 0x66 {
        30
    } else if b == 0x67 {
        66
    } else if b == 0x68 {
        58
    } else if b == 0x69 {
        107
    } else if b == 0x6a {
        40
    } else if b == 0x6b {
        84
    } else if b == 0x6c {
        250
    } else if b == 0x6d {
        133
    } else if b == 0x6e {
        61
    } else if b == 0x6f {
        186
    } else if b == 0x70 {
        43
    } else if b == 0x71 {
        121
    } else if b == 0x72 {
        10
    } else if b == 0x73 {
        21
    } else if b == 0x74 {
        155
    } else if b == 0x75 {
        159
    } else if b == 0x76 {
        94
    } else if b == 0x77 {
        202
    } else if b == 0x78 {
        78
    } else if b == 0x79 {
        212
    } else if b == 0x7a {
        172
    } else if b == 0x7b {
        229
    } else if b == 0x7c {
        243
    } else if b == 0x7d {
        115
    } else if b == 0x7e {
        167
    } else if b == 0x7f {
        87
    } else if b == 0x80 {
        175
    } else if b == 0x81 {
        88
    } else if b == 0x82 {
        168
    } else if b == 0x83 {
        80
    } else if b == 0x84 {
        244
    } else if b == 0x85 {
        234
    } else if b == 0x86 {
        214
    } else if b == 0x87 {
        116
    } else if b == 0x88 {
        79
    } else if b == 0x89 {
        174
    } else if b == 0x8a {
        233
    } else if b == 0x8b {
        213
    } else if b == 0x8c {
        231
    } else if b == 0x8d {
        230
    } else if b == 0x8e {
        173
    } else if b == 0x8f {
        232
    } else if b == 0x90 {
        44
    } else if b == 0x91 {
        215
    } else if b == 0x92 {
        117
    } else if b == 0x93 {
        122
    } else if b == 0x94 {
        235
    } else if b == 0x95 {
        22
    } else if b == 0x96 {
        11
    } else if b == 0x97 {
        245
    } else if b == 0x98 {
        89
    } else if b == 0x99 {
        203
    } else if b == 0x9a {
        95
    } else if b == 0x9b {
        176
    } else if b == 0x9c {
        156
    } else if b == 0x9d {
        169
    } else if b == 0x9e {
        81
    } else if b == 0x9f {
        160
    } else if b == 0xa0 {
        127
    } else if b == 0xa1 {
        12
    } else if b == 0xa2 {
        246
    } else if b == 0xa3 {
        111
    } else if b == 0xa4 {
        23
    } else if b == 0xa5 {
        196
    } else if b == 0xa6 {
        73
    } else if b == 0xa7 {
        236
    } else if b == 0xa8 {
        216
    } else if b == 0xa9 {
        67
    } else if b == 0xaa {
        31
    } else if b == 0xab {
        45
    } else if b == 0xac {
        164
    } else if b == 0xad {
        118
    } else if b == 0xae {
        123
    } else if b == 0xaf {
        183
    } else if b == 0xb0 {
        204
    } else if b == 0xb1 {
        187
    } else if b == 0xb2 {
        62
    } else if b == 0xb3 {
        90
    } else if b == 0xb4 {
        251
    } else if b == 0xb5 {
        96
    } else if b == 0xb6 {
        177
    } else if b == 0xb7 {
        134
    } else if b == 0xb8 {
        59
    } else if b == 0xb9 {
        82
    } else if b == 0xba {
        161
    } else if b == 0xbb {
        108
    } else if b == 0xbc {
        170
    } else if b == 0xbd {
        85
    } else if b == 0xbe {
        41
    } else if b == 0xbf {
        157
    } else if b == 0xc0 {
        151
    } else if b == 0xc1 {
        178
    } else if b == 0xc2 {
        135
    } else if b == 0xc3 {
        144
    } else if b == 0xc4 {
        97
    } else if b == 0xc5 {
        190
    } else if b == 0xc6 {
        220
    } else if b == 0xc7 {
        252
    } else if b == 0xc8 {
        188
    } else if b == 0xc9 {
        149
    } else if b == 0xca {
        207
    } else if b == 0xcb {
        205
    } else if b == 0xcc {
        55
    } else if b == 0xcd {
        63
    } else if b == 0xce {
        91
    } else if b == 0xcf {
        209
    } else if b == 0xd0 {
        83
    } else if b == 0xd1 {
        57
    } else if b == 0xd2 {
        132
    } else if b == 0xd3 {
        60
    } else if b == 0xd4 {
        65
    } else if b == 0xd5 {
        162
    } else if b == 0xd6 {
        109
    } else if b == 0xd7 {
        71
    } else if b == 0xd8 {
        20
    } else if b == 0xd9 {
        42
    } else if b == 0xda {
        158
    } else if b == 0xdb {
        93
    } else if b == 0xdc {
        86
    } else if b == 0xdd {
        242
    } else if b == 0xde {
        211
    } else if b == 0xdf {
        171
    } else if b == 0xe0 {
        68
    } else if b == 0xe1 {
        17
    } else if b == 0xe2 {
        146
    } else if b == 0xe3 {
        217
    } else if b == 0xe4 {
        35
    } else if b == 0xe5 {
        32
    } else if b == 0xe6 {
        46
    } else if b == 0xe7 {
        137
    } else if b == 0xe8 {
        180
    } else if b == 0xe9 {
        124
    } else if b == 0xea {
        184
    } else if b == 0xeb {
        38
    } else if b == 0xec {
        119
    } else if b == 0xed {
        153
    } else if b == 0xee {
        227
    } else if b == 0xef {
        165
    } else if b == 0xf0 {
        103
    } else if b == 0xf1 {
        74
    } else if b == 0xf2 {
        237
    } else if b == 0xf3 {
        222
    } else if b == 0xf4 {
        197
    } else if b == 0xf5 {
        49
    } else if b == 0xf6 {
        254
    } else if b == 0xf7 {
        24
    } else if b == 0xf8 {
        13
    } else if b == 0xf9 {
        99
    } else if b == 0xfa {
        140
    } else if b == 0xfb {
        128
    } else if b == 0xfc {
        192
    } else if b == 0xfd {
        247
    } else if b == 0xfe {
        112
    } else if b == 0xff {
        7
    } else {
        0
    }
}

/// The logarithms of the elements `0x1` to `0x20` of `gf256_rijndael`.
#[verifier::rlimit(40)]
proof fn gf256_rijndael_log_part_0(b: nat)
    requires
        0x1 <= b < 0x21,
    ensures
        gf256_rijndael_log(b) < 255,
        gf256_rijndael_gpow(gf256_rijndael_log(b)) == b,
{
    gf256_rijndael_powers_0();
    gf256_rijndael_powers_1();
    gf256_rijndael_powers_2();
    gf256_rijndael_powers_3();
    gf256_rijndael_powers_4();
    gf256_rijndael_powers_5();
    gf256_rijndael_powers_6();
    gf256_rijndael_powers_7();
    gf256_rijndael_powers_8();
    gf256_rijndael_powers_9();
    gf256_rijndael_powers_10();
    gf256_rijndael_powers_11();
    gf256_rijndael_powers_12();
    gf256_rijndael_powers_13();
    gf256_rijndael_powers_14();
    gf256_rijndael_powers_15();
    if b == 0x1 {
        assert(gf256_rijndael_log(b) == 0);
    } else if b == 0x2 {
        assert(gf256_rijndael_log(b) == 25);
    } else if b == 0x3 {
        assert(gf256_rijndael_log(b) == 1);
    } else if b == 0x4 {
        assert(gf256_rijndael_log(b) == 50);
    } else if b == 0x5 {
        assert(gf256_rijndael_log(b) == 2);
    } else if b == 0x6 {
        assert(gf256_rijndael_log(b) == 26);
    } else if b == 0x7 {
        assert(gf256_rijndael_log(b) == 198);
    } else if b == 0x8 {
        assert(gf256_rijndael_log(b) == 75);
    } else if b == 0x9 {
        assert(gf256_rijndael_log(b) == 199);
    } else if b == 0xa {
        assert(gf256_rijndael_log(b) == 27);
    } else if b == 0xb {
        assert(gf256_rijndael_log(b) == 104);
    } else if b == 0xc {
        assert(gf256_rijndael_log(b) == 51);
    } else if b == 0xd {
        assert(gf256_rijndael_log(b) == 238);
    } else if b == 0xe {
        assert(gf256_rijndael_log(b) == 223);
    } else if b == 0xf {
        assert(gf256_rijndael_log(b) == 3);
    } else if b == 0x10 {
        assert(gf256_rijndael_log(b) == 100);
    } else if b == 0x11 {
        assert(gf256_rijndael_log(b) == 4);
    } else if b == 0x12 {
        assert(gf256_rijndael_log(b) == 224);
    } else if b == 0x13 {
        assert(gf256_rijndael_log(b) == 14);
    } else if b == 0x14 {
        assert(gf256_rijndael_log(b) == 52);
    } else if b == 0x15 {
        assert(gf256_rijndael_log(b) == 141);
    } else if b == 0x16 {
        assert(gf256_rijndael_log(b) == 129);
    } else if b == 0x17 {
        assert(gf256_rijndael_log(b) == 239);
    } else if b == 0x18 {
        assert(gf256_rijndael_log(b) == 76);
    } else if b == 0x19 {
        assert(gf256_rijndael_log(b) == 113);
    } else if b == 0x1a {
        assert(gf256_rijndael_log(b) == 8);
    } else if b == 0x1b {
        assert(gf256_rijndael_log(b) == 200);
    } else if b == 0x1c {
        assert(gf256_rijndael_log(b) == 248);
    } else if b == 0x1d {
        assert(gf256_rijndael_log(b) == 105);
    } else if b == 0x1e {
        assert(gf256_rijndael_log(b) == 28);
    } else if b == 0x1f {
        assert(gf256_rijndael_log(b) == 193);
    } else if b == 0x20 {
        assert(gf256_rijndael_log(b) == 125);
    }
}

/// The logarithms of the elements `0x21` to `0x40` of `gf256_rijndael`.
#[verifier::rlimit(40)]
proof fn gf256_rijndael_log_part_1(b: nat)
    requires
        0x21 <= b < 0x41,
    ensures
        gf256_rijndael_log(b) < 255,
        gf256_rijndael_gpow(gf256_rijndael_log(b)) == b,
{
    gf256_rijndael_powers_0();
    gf256_rijndael_powers_1();
    gf256_rijndael_powers_2();
    gf256_rijndael_powers_3();
    gf256_rijndael_powers_4();
    gf256_rijndael_powers_5();
    gf256_rijndael_powers_6();
    gf256_rijndael_powers_7();
    gf256_rijndael_powers_8();
    gf256_rijndael_powers_9();
    gf256_rijndael_powers_10();
    gf256_rijndael_powers_11();
    gf256_rijndael_powers_12();
    gf256_rijndael_powers_13();
    gf256_rijndael_powers_14();
    gf256_rijndael_powers_15();
    if b == 0x21 {
        assert(gf256_rijndael_log(b) == 194);
    } else if b == 0x22 {
        assert(gf256_rijndael_log(b) == 29);
    } else if b == 0x23 {
        assert(gf256_rijndael_log(b) == 181);
    } else if b == 0x24 {
        assert(gf256_rijndael_log(b) == 249);
    } else if b == 0x25 {
        assert(gf256_rijndael_log(b) == 185);
    } else if b == 0x26 {
        assert(gf256_rijndael_log(b) == 39);
    } else if b == 0x27 {
        assert(gf256_rijndael_log(b) == 106);
    } else if b == 0x28 {
        assert(gf256_rijndael_log(b) == 77);
    } else if b == 0x29 {
        assert(gf256_rijndael_log(b) == 228);
    } else if b == 0x2a {
        assert(gf256_rijndael_log(b) == 166);
    } else if b == 0x2b {
        assert(gf256_rijndael_log(b) == 114);
    } else if b == 0x2c {
        assert(gf256_rijndael_log(b) == 154);
    } else if b == 0x2d {
        assert(gf256_rijndael_log(b) == 201);
    } else if b == 0x2e {
        assert(gf256_rijndael_log(b) == 9);
    } else if b == 0x2f {
        assert(gf256_rijndael_log(b) == 120);
    } else if b == 0x30 {
        assert(gf256_rijndael_log(b) == 101);
    } else if b == 0x31 {
        assert(gf256_rijndael_log(b) == 47);
    } else if b == 0x32 {
        assert(gf256_rijndael_log(b) == 138);
    } else if b == 0x33 {
        assert(gf256_rijndael_log(b) == 5);
    } else if b == 0x34 {
        assert(gf256_rijndael_log(b) == 33);
    } else if b == 0x35 {
        assert(gf256_rijndael_log(b) == 15);
    } else if b == 0x36 {
        assert(gf256_rijndael_log(b) == 225);
    } else if b == 0x37 {
        assert(gf256_rijndael_log(b) == 36);
    } else if b == 0x38 {
        assert(gf256_rijndael_log(b) == 18);
    } else if b == 0x39 {
        assert(gf256_rijndael_log(b) == 240);
    } else if b == 0x3a {
        assert(gf256_rijndael_log(b) == 130);
    } else if b == 0x3b {
        assert(gf256_rijndael_log(b) == 69);
    } else if b == 0x3c {
        assert(gf256_rijndael_log(b) == 53);
    } else if b == 0x3d {
        assert(gf256_rijndael_log(b) == 147);
    } else if b == 0x3e {
        assert(gf256_rijndael_log(b) == 218);
    } else if b == 0x3f {
        assert(gf256_rijndael_log(b) == 142);
    } else if b == 0x40 {
        assert(gf256_rijndael_log(b) == 150);
    }
}

/// The logarithms of the elements `0x41` to `0x60` of `gf256_rijndael`.
#[verifier::rlimit(40)]
proof fn gf256_rijndael_log_part_2(b: nat)
    requires
        0x41 <= b < 0x61,
    ensures
        gf256_rijndael_log(b) < 255,
        gf256_rijndael_gpow(gf256_rijndael_log(b)) == b,
{
    gf256_rijndael_powers_0();
    gf256_rijndael_powers_1();
    gf256_rijndael_powers_2();
    gf256_rijndael_powers_3();
    gf256_rijndael_powers_4();
    gf256_rijndael_powers_5();
    gf256_rijndael_powers_6();
    gf256_rijndael_powers_7();
    gf256_rijndael_powers_8();
    gf256_rijndael_powers_9();
    gf256_rijndael_powers_10();
    gf256_rijndael_powers_11();
    gf256_rijndael_powers_12();
    gf256_rijndael_powers_13();
    gf256_rijndael_powers_14();
    gf256_rijndael_powers_15();
    if b == 0x41 {
        assert(gf256_rijndael_log(b) == 143);
    } else if b == 0x42 {
        assert(gf256_rijndael_log(b) == 219);
    } else if b == 0x43 {
        assert(gf256_rijndael_log(b) == 189);
    } else if b == 0x44 {
        assert(gf256_rijndael_log(b) == 54);
    } else if b == 0x45 {
        assert(gf256_rijndael_log(b) == 208);
    } else if b == 0x46 {
        assert(gf256_rijndael_log(b) == 206);
    } else if b == 0x47 {
        assert(gf256_rijndael_log(b) == 148);
    } else if b == 0x48 {
        assert(gf256_rijndael_log(b) == 19);
    } else if b == 0x49 {
        assert(gf256_rijndael_log(b) == 92);
    } else if b == 0x4a {
        assert(gf256_rijndael_log(b) == 210);
    } else if b == 0x4b {
        assert(gf256_rijndael_log(b) == 241);
    } else if b == 0x4c {
        assert(gf256_rijndael_log(b) == 64);
    } else if b == 0x4d {
        assert(gf256_rijndael_log(b) == 70);
    } else if b == 0x4e {
        assert(gf256_rijndael_log(b) == 131);
    } else if b == 0x4f {
        assert(gf256_rijndael_log(b) == 56);
    } else if b == 0x50 {
        assert(gf256_rijndael_log(b) == 102);
    } else if b == 0x51 {
        assert(gf256_rijndael_log(b) == 221);
    } else if b == 0x52 {
        assert(gf256_rijndael_log(b) == 253);
    } else if b == 0x53 {
        assert(gf256_rijndael_log(b) == 48);
    } else if b == 0x54 {
        assert(gf256_rijndael_log(b) == 191);
    } else if b == 0x55 {
        assert(gf256_rijndael_log(b) == 6);
    } else if b == 0x56 {
        assert(gf256_rijndael_log(b) == 139);
    } else if b == 0x57 {
        assert(gf256_rijndael_log(b) == 98);
    } else if b == 0x58 {
        assert(gf256_rijndael_log(b) == 179);
    } else if b == 0x59 {
        assert(gf256_rijndael_log(b) == 37);
    } else if b == 0x5a {
        assert(gf256_rijndael_log(b) == 226);
    } else if b == 0x5b {
        assert(gf256_rijndael_log(b) == 152);
    } else if b == 0x5c {
        assert(gf256_rijndael_log(b) == 34);
    } else if b == 0x5d {
        assert(gf256_rijndael_log(b) == 136);
    } else if b == 0x5e {
        assert(gf256_rijndael_log(b) == 145);
    } else if b == 0x5f {
        assert(gf256_rijndael_log(b) == 16);
    } else if b == 0x60 {
        assert(gf256_rijndael_log(b) == 126);
    }
}

/// The logarithms of the elements `0x61` to `0x80` of `gf256_rijndael`.
#[verifier::rlimit(40)]
proof fn gf256_rijndael_log_part_3(b: nat)
    requires
        0x61 <= b < 0x81,
    ensures
        gf256_rijndael_log(b) < 255,
        gf256_rijndael_gpow(gf256_rijndael_log(b)) == b,
{
    gf256_rijndael_powers_0();
    gf256_rijndael_powers_1();
    gf256_rijndael_powers_2();
    gf256_rijndael_powers_3();
    gf256_rijndael_powers_4();
    gf256_rijndael_powers_5();
    gf256_rijndael_powers_6();
    gf256_rijndael_powers_7();
    gf256_rijndael_powers_8();
    gf256_rijndael_powers_9();
    gf256_rijndael_powers_10();
    gf256_rijndael_powers_11();
    gf256_rijndael_powers_12();
    gf256_rijndael_powers_13();
    gf256_rijndael_powers_14();
    gf256_rijndael_powers_15();
    if b == 0x61 {
        assert(gf256_rijndael_log(b) == 110);
    } else if b == 0x62 {
        assert(gf256_rijndael_log(b) == 72);
    } else if b == 0x63 {
        assert(gf256_rijndael_log(b) == 195);
    } else if b == 0x64 {
        assert(gf256_rijndael_log(b) == 163);
    } else if b == 0x65 {
        assert(gf256_rijndael_log(b) == 182);
    } else if b == 0x66 {
        assert(gf256_rijndael_log(b) == 30);
    } else if b == 0x67 {
        assert(gf256_rijndael_log(b) == 66);
    } else if b == 0x68 {
        assert(gf256_rijndael_log(b) == 58);
    } else if b == 0x69 {
        assert(gf256_rijndael_log(b) == 107);
    } else if b == 0x6a {
        assert(gf256_rijndael_log(b) == 40);
    } else if b == 0x6b {
        assert(gf256_rijndael_log(b) == 84);
    } else if b == 0x6c {
        assert(gf256_rijndael_log(b) == 250);
    } else if b == 0x6d {
        assert(gf256_rijndael_log(b) == 133);
    } else if b == 0x6e {
        assert(gf256_rijndael_log(b) == 61);
    } else if b == 0x6f {
        assert(gf256_rijndael_log(b) == 186);
    } else if b == 0x70 {
        assert(gf256_rijndael_log(b) == 43);
    } else if b == 0x71 {
        assert(gf256_rijndael_log(b) == 121);
    } else if b == 0x72 {
        assert(gf256_rijndael_log(b) == 10);
    } else if b == 0x73 {
        assert(gf256_rijndael_log(b) == 21);
    } else if b == 0x74 {
        assert(gf256_rijndael_log(b) == 155);
    } else if b == 0x75 {
        assert(gf256_rijndael_log(b) == 159);
    } else if b == 0x76 {
        assert(gf256_rijndael_log(b) == 94);
    } else if b == 0x77 {
        assert(gf256_rijndael_log(b) == 202);
    } else if b == 0x78 {
        assert(gf256_rijndael_log(b) == 78);
    } else if b == 0x79 {
        assert(gf256_rijndael_log(b) == 212);
    } else if b == 0x7a {
        assert(gf256_rijndael_log(b) == 172);
    } else if b == 0x7b {
        assert(gf256_rijndael_log(b) == 229);
    } else if b == 0x7c {
        assert(gf256_rijndael_log(b) == 243);
    } else if b == 0x7d {
        assert(gf256_rijndael_log(b) == 115);
    } else if b == 0x7e {
        assert(gf256_rijndael_log(b) == 167);
    } else if b == 0x7f {
        assert(gf256_rijndael_log(b) == 87);
    } else if b == 0x80 {
        assert(gf256_rijndael_log(b) == 175);
    }
}

/// The logarithms of the elements `0x81` to `0xa0` of `gf256_rijndael`.
#[verifier::rlimit(40)]
proof fn gf256_rijndael_log_part_4(b: nat)
    requires
        0x81 <= b < 0xa1,
    ensures
        gf256_rijndael_log(b) < 255,
        gf256_rijndael_gpow(gf256_rijndael_log(b)) == b,
{
    gf256_rijndael_powers_0();
    gf256_rijndael_powers_1();
    gf256_rijndael_powers_2();
    gf256_rijndael_powers_3();
    gf256_rijndael_powers_4();
    gf256_rijndael_powers_5();
    gf256_rijndael_powers_6();
    gf256_rijndael_powers_7();
    gf256_rijndael_powers_8();
    gf256_rijndael_powers_9();
    gf256_rijndael_powers_10();
    gf256_rijndael_powers_11();
    gf256_rijndael_powers_12();
    gf256_rijndael_powers_13();
    gf256_rijndael_powers_14();
    gf256_rijndael_powers_15();
    if b == 0x81 {
        assert(gf256_rijndael_log(b) == 88);
    } else if b == 0x82 {
        assert(gf256_rijndael_log(b) == 168);
    } else if b == 0x83 {
        assert(gf256_rijndael_log(b) == 80);
    } else if b == 0x84 {
        assert(gf256_rijndael_log(b) == 244);
    } else if b == 0x85 {
        assert(gf256_rijndael_log(b) == 234);
    } else if b == 0x86 {
        assert(gf256_rijndael_log(b) == 214);
    } else if b == 0x87 {
        assert(gf256_rijndael_log(b) == 116);
    } else if b == 0x88 {
        assert(gf256_rijndael_log(b) == 79);
    } else if b == 0x89 {
        assert(gf256_rijndael_log(b) == 174);
    } else if b == 0x8a {
        assert(gf256_rijndael_log(b) == 233);
    } else if b == 0x8b {
        assert(gf256_rijndael_log(b) == 213);
    } else if b == 0x8c {
        assert(gf256_rijndael_log(b) == 231);
    } else if b == 0x8d {
        assert(gf256_rijndael_log(b) == 230);
    } else if b == 0x8e {
        assert(gf256_rijndael_log(b) == 173);
    } else if b == 0x8f {
        assert(gf256_rijndael_log(b) == 232);
    } else if b == 0x90 {
        assert(gf256_rijndael_log(b) == 44);
    } else if b == 0x91 {
        assert(gf256_rijndael_log(b) == 215);
    } else if b == 0x92 {
        assert(gf256_rijndael_log(b) == 117);
    } else if b == 0x93 {
        assert(gf256_rijndael_log(b) == 122);
    } else if b == 0x94 {
        assert(gf256_rijndael_log(b) == 235);
    } else if b == 0x95 {
        assert(gf256_rijndael_log(b) == 22);
    } else if b == 0x96 {
        assert(gf256_rijndael_log(b) == 11);
    } else if b == 0x97 {
        assert(gf256_rijndael_log(b) == 245);
    } else if b == 0x98 {
        assert(gf256_rijndael_log(b) == 89);
    } else if b == 0x99 {
        assert(gf256_rijndael_log(b) == 203);
    } else if b == 0x9a {
        assert(gf256_rijndael_log(b) == 95);
    } else if b == 0x9b {
        assert(gf256_rijndael_log(b) == 176);
    } else if b == 0x9c {
        assert(gf256_rijndael_log(b) == 156);
    } else if b == 0x9d {
        assert(gf256_rijndael_log(b) == 169);
    } else if b == 0x9e {
        assert(gf256_rijndael_log(b) == 81);
    } else if b == 0x9f {
        assert(gf256_rijndael_log(b) == 160);
    } else if b == 0xa0 {
        assert(gf256_rijndael_log(b) == 127);
    }
}

/// The logarithms of the elements `0xa1` to `0xc0` of `gf256_rijndael`.
#[verifier::rlimit(40)]
proof fn gf256_rijndael_log_part_5(b: nat)
    requires
        0xa1 <= b < 0xc1,
    ensures
        gf256_rijndael_log(b) < 255,
        gf256_rijndael_gpow(gf256_rijndael_log(b)) == b,
{
    gf256_rijndael_powers_0();
    gf256_rijndael_powers_1();
    gf256_rijndael_powers_2();
    gf256_rijndael_powers_3();
    gf256_rijndael_powers_4();
    gf256_rijndael_powers_5();
    gf256_rijndael_powers_6();
    gf256_rijndael_powers_7();
    gf256_rijndael_powers_8();
    gf256_rijndael_powers_9();
    gf256_rijndael_powers_10();
    gf256_rijndael_powers_11();
    gf256_rijndael_powers_12();
    gf256_rijndael_powers_13();
    gf256_rijndael_powers_14();
    gf256_rijndael_powers_15();
    if b == 0xa1 {
        assert(gf256_rijndael_log(b) == 12);
    } else if b == 0xa2 {
        assert(gf256_rijndael_log(b) == 246);
    } else if b == 0xa3 {
        assert(gf256_rijndael_log(b) == 111);
    } else if b == 0xa4 {
        assert(gf256_rijndael_log(b) == 23);
    } else if b == 0xa5 {
        assert(gf256_rijndael_log(b) == 196);
    } else if b == 0xa6 {
        assert(gf256_rijndael_log(b) == 73);
    } else if b == 0xa7 {
        assert(gf256_rijndael_log(b) == 236);
    } else if b == 0xa8 {
        assert(gf256_rijndael_log(b) == 216);
    } else if b == 0xa9 {
        assert(gf256_rijndael_log(b) == 67);
    } else if b == 0xaa {
        assert(gf256_rijndael_log(b) == 31);
    } else if b == 0xab {
        assert(gf256_rijndael_log(b) == 45);
    } else if b == 0xac {
        assert(gf256_rijndael_log(b) == 164);
    } else if b == 0xad {
        assert(gf256_rijndael_log(b) == 118);
    } else if b == 0xae {
        assert(gf256_rijndael_log(b) == 123);
    } else if b == 0xaf {
        assert(gf256_rijndael_log(b) == 183);
    } else if b == 0xb0 {
        assert(gf256_rijndael_log(b) == 204);
    } else if b == 0xb1 {
        assert(gf256_rijndael_log(b) == 187);
    } else if b == 0xb2 {
        assert(gf256_rijndael_log(b) == 62);
    } else if b == 0xb3 {
        assert(gf256_rijndael_log(b) == 90);
    } else if b == 0xb4 {
        assert(gf256_rijndael_log(b) == 251);
    } else if b == 0xb5 {
        assert(gf256_rijndael_log(b) == 96);
    } else if b == 0xb6 {
        assert(gf256_rijndael_log(b) == 177);
    } else if b == 0xb7 {
        assert(gf256_rijndael_log(b) == 134);
    } else if b == 0xb8 {
        assert(gf256_rijndael_log(b) == 59);
    } else if b == 0xb9 {
        assert(gf256_rijndael_log(b) == 82);
    } else if b == 0xba {
        assert(gf256_rijndael_log(b) == 161);
    } else if b == 0xbb {
        assert(gf256_rijndael_log(b) == 108);
    } else if b == 0xbc {
        assert(gf256_rijndael_log(b) == 170);
    } else if b == 0xbd {
        assert(gf256_rijndael_log(b) == 85);
    } else if b == 0xbe {
        assert(gf256_rijndael_log(b) == 41);
    } else if b == 0xbf {
        assert(gf256_rijndael_log(b) == 157);
    } else if b == 0xc0 {
        assert(gf256_rijndael_log(b) == 151);
    }
}

/// The logarithms of the elements `0xc1` to `0xe0` of `gf256_rijndael`.
#[verifier::rlimit(40)]
proof fn gf256_rijndael_log_part_6(b: nat)
    requires
        0xc1 <= b < 0xe1,
    ensures
        gf256_rijndael_log(b) < 255,
        gf256_rijndael_gpow(gf256_rijndael_log(b)) == b,
{
    gf256_rijndael_powers_0();
    gf256_rijndael_powers_1();
    gf256_rijndael_powers_2();
    gf256_rijndael_powers_3();
    gf256_rijndael_powers_4();
    gf256_rijndael_powers_5();
    gf256_rijndael_powers_6();
    gf256_rijndael_powers_7();
    gf256_rijndael_powers_8();
    gf256_rijndael_powers_9();
    gf256_rijndael_powers_10();
    gf256_rijndael_powers_11();
    gf256_rijndael_powers_12();
    gf256_rijndael_powers_13();
    gf256_rijndael_powers_14();
    gf256_rijndael_powers_15();
    if b == 0xc1 {
        assert(gf256_rijndael_log(b) == 178);
    } else if b == 0xc2 {
        assert(gf256_rijndael_log(b) == 135);
    } else if b == 0xc3 {
        assert(gf256_rijndael_log(b) == 144);
    } else if b == 0xc4 {
        assert(gf256_rijndael_log(b) == 97);
    } else if b == 0xc5 {
        assert(gf256_rijndael_log(b) == 190);
    } else if b == 0xc6 {
        assert(gf256_rijndael_log(b) == 220);
    } else if b == 0xc7 {
        assert(gf256_rijndael_log(b) == 252);
    } else if b == 0xc8 {
        assert(gf256_rijndael_log(b) == 188);
    } else if b == 0xc9 {
        assert(gf256_rijndael_log(b) == 149);
    } else if b == 0xca {
        assert(gf256_rijndael_log(b) == 207);
    } else if b == 0xcb {
        assert(gf256_rijndael_log(b) == 205);
    } else if b == 0xcc {
        assert(gf256_rijndael_log(b) == 55);
    } else if b == 0xcd {
        assert(gf256_rijndael_log(b) == 63);
    } else if b == 0xce {
        assert(gf256_rijndael_log(b) == 91);
    } else if b == 0xcf {
        assert(gf256_rijndael_log(b) == 209);
    } else if b == 0xd0 {
        assert(gf256_rijndael_log(b) == 83);
    } else if b == 0xd1 {
        assert(gf256_rijndael_log(b) == 57);
    } else if b == 0xd2 {
        assert(gf256_rijndael_log(b) == 132);
    } else if b == 0xd3 {
        assert(gf256_rijndael_log(b) == 60);
    } else if b == 0xd4 {
        assert(gf256_rijndael_log(b) == 65);
    } else if b == 0xd5 {
        assert(gf256_rijndael_log(b) == 162);
    } else if b == 0xd6 {
        assert(gf256_rijndael_log(b) == 109);
    } else if b == 0xd7 {
        assert(gf256_rijndael_log(b) == 71);
    } else if b == 0xd8 {
        assert(gf256_rijndael_log(b) == 20);
    } else if b == 0xd9 {
        assert(gf256_rijndael_log(b) == 42);
    } else if b == 0xda {
        assert(gf256_rijndael_log(b) == 158);
    } else if b == 0xdb {
        assert(gf256_rijndael_log(b) == 93);
    } else if b == 0xdc {
        assert(gf256_rijndael_log(b) == 86);
    } else if b == 0xdd {
        assert(gf256_rijndael_log(b) == 242);
    } else if b == 0xde {
        assert(gf256_rijndael_log(b) == 211);
    } else if b == 0xdf {
        assert(gf256_rijndael_log(b) == 171);
    } else if b == 0xe0 {
        assert(gf256_rijndael_log(b) == 68);
    }
}

/// The logarithms of the elements `0xe1` to `0xff` of `gf256_rijndael`.
#[verifier::rlimit(40)]
proof fn gf256_rijndael_log_part_7(b: nat)
    requires
        0xe1 <= b < 0x100,
    ensures
        gf256_rijndael_log(b) < 255,
        gf256_rijndael_gpow(gf256_rijndael_log(b)) == b,
{
    gf256_rijndael_powers_0();
    gf256_rijndael_powers_1();
    gf256_rijndael_powers_2();
    gf256_rijndael_powers_3();
    gf256_rijndael_powers_4();
    gf256_rijndael_powers_5();
    gf256_rijndael_powers_6();
    gf256_rijndael_powers_7();
    gf256_rijndael_powers_8();
    gf256_rijndael_powers_9();
    gf256_rijndael_powers_10();
    gf256_rijndael_powers_11();
    gf256_rijndael_powers_12();
    gf256_rijndael_powers_13();
    gf256_rijndael_powers_14();
    gf256_rijndael_powers_15();
    if b == 0xe1 {
        assert(gf256_rijndael_log(b) == 17);
    } else if b == 0xe2 {
        assert(gf256_rijndael_log(b) == 146);
    } else if b == 0xe3 {
        assert(gf256_rijndael_log(b) == 217);
    } else if b == 0xe4 {
        assert(gf256_rijndael_log(b) == 35);
    } else if b == 0xe5 {
        assert(gf256_rijndael_log(b) == 32);
    } else if b == 0xe6 {
        assert(gf256_rijndael_log(b) == 46);
    } else if b == 0xe7 {
        assert(gf256_rijndael_log(b) == 137);
    } else if b == 0xe8 {
        assert(gf256_rijndael_log(b) == 180);
    } else if b == 0xe9 {
        assert(gf256_rijndael_log(b) == 124);
    } else if b == 0xea {
        assert(gf256_rijndael_log(b) == 184);
    } else if b == 0xeb {
        assert(gf256_rijndael_log(b) == 38);
    } else if b == 0xec {
        assert(gf256_rijndael_log(b) == 119);
    } else if b == 0xed {
        assert(gf256_rijndael_log(b) == 153);
    } else if b == 0xee {
        assert(gf256_rijndael_log(b) == 227);
    } else if b == 0xef {
        assert(gf256_rijndael_log(b) == 165);
    } else if b == 0xf0 {
        assert(gf256_rijndael_log(b) == 103);
    } else if b == 0xf1 {
        assert(gf256_rijndael_log(b) == 74);
    } else if b == 0xf2 {
        assert(gf256_rijndael_log(b) == 237);
    } else if b == 0xf3 {
        assert(gf256_rijndael_log(b) == 222);
    } else if b == 0xf4 {
        assert(gf256_rijndael_log(b) == 197);
    } else if b == 0xf5 {
        assert(gf256_rijndael_log(b) == 49);
    } else if b == 0xf6 {
        assert(gf256_rijndael_log(b) == 254);
    } else if b == 0xf7 {
        assert(gf256_rijndael_log(b) == 24);
    } else if b == 0xf8 {
        assert(gf256_rijndael_log(b) == 13);
    } else if b == 0xf9 {
        assert(gf256_rijndael_log(b) == 99);
    } else if b == 0xfa {
        assert(gf256_rijndael_log(b) == 140);
    } else if b == 0xfb {
        assert(gf256_rijndael_log(b) == 128);
    } else if b == 0xfc {
        assert(gf256_rijndael_log(b) == 192);
    } else if b == 0xfd {
        assert(gf256_rijndael_log(b) == 247);
    } else if b == 0xfe {
        assert(gf256_rijndael_log(b) == 112);
    } else if b == 0xff {
        assert(gf256_rijndael_log(b) == 7);
    }
}

/// Every non-zero element of `gf256_rijndael` is the power of the generator that its
/// logarithm names.
pub proof fn lemma_gf256_rijndael_log(b: nat)
    requires
        0 < b < 0x100,
    ensures
        gf256_rijndael_log(b) < 255,
        powmod(0x3, gf256_rijndael_log(b), 0x11b) == b,
{
    reveal(gf256_rijndael_gpow);
    if b < 0x21 {
        gf256_rijndael_log_part_0(b);
    } else if b < 0x41 {
        gf256_rijndael_log_part_1(b);
    } else if b < 0x61 {
        gf256_rijndael_log_part_2(b);
    } else if b < 0x81 {
        gf256_rijndael_log_part_3(b);
    } else if b < 0xa1 {
        gf256_rijndael_log_part_4(b);
    } else if b < 0xc1 {
        gf256_rijndael_log_part_5(b);
    } else if b < 0xe1 {
        gf256_rijndael_log_part_6(b);
    } else {
        gf256_rijndael_log_part_7(b);
    }
}

/// The logarithms of the powers `0x3^0` to `0x3^31` in `gf256_rijndael`.
#[verifier::rlimit(40)]
proof fn gf256_rijndael_log_pow_part_0(k: nat)
    requires
        0 <= k < 32,
    ensures
        gf256_rijndael_log(gf256_rijndael_gpow(k)) == k,
{
    gf256_rijndael_powers_0();
    gf256_rijndael_powers_1();
    gf256_rijndael_powers_2();
    gf256_rijndael_powers_3();
    gf256_rijndael_powers_4();
    gf256_rijndael_powers_5();
    gf256_rijndael_powers_6();
    gf256_rijndael_powers_7();
    gf256_rijndael_powers_8();
    gf256_rijndael_powers_9();
    gf256_rijndael_powers_10();
    gf256_rijndael_powers_11();
    gf256_rijndael_powers_12();
    gf256_rijndael_powers_13();
    gf256_rijndael_powers_14();
    gf256_rijndael_powers_15();
    if k == 0 {
        assert(gf256_rijndael_gpow(0) == 0x1);
    } else if k == 1 {
        assert(gf256_rijndael_gpow(1) == 0x3);
    } else if k == 2 {
        assert(gf256_rijndael_gpow(2) == 0x5);
    } else if k == 3 {
        assert(gf256_rijndael_gpow(3) == 0xf);
    } else if k == 4 {
        assert(gf256_rijndael_gpow(4) == 0x11);
    } else if k == 5 {
        assert(gf256_rijndael_gpow(5) == 0x33);
    } else if k == 6 {
        assert(gf256_rijndael_gpow(6) == 0x55);
    } else if k == 7 {
        assert(gf256_rijndael_gpow(7) == 0xff);
    } else if k == 8 {
        assert(gf256_rijndael_gpow(8) == 0x1a);
    } else if k == 9 {
        assert(gf256_rijndael_gpow(9) == 0x2e);
    } else if k == 10 {
        assert(gf256_rijndael_gpow(10) == 0x72);
    } else if k == 11 {
        assert(gf256_rijndael_gpow(11) == 0x96);
    } else if k == 12 {
        assert(gf256_rijndael_gpow(12) == 0xa1);
    } else if k == 13 {
        assert(gf256_rijndael_gpow(13) == 0xf8);
    } else if k == 14 {
        assert(gf256_rijndael_gpow(14) == 0x13);
    } else if k == 15 {
        assert(gf256_rijndael_gpow(15) == 0x35);
    } else if k == 16 {
        assert(gf256_rijndael_gpow(16) == 0x5f);
    } else if k == 17 {
        assert(gf256_rijndael_gpow(17) == 0xe1);
    } else if k == 18 {
        assert(gf256_rijndael_gpow(18) == 0x38);
    } else if k == 19 {
        assert(gf256_rijndael_gpow(19) == 0x48);
    } else if k == 20 {
        assert(gf256_rijndael_gpow(20) == 0xd8);
    } else if k == 21 {
        assert(gf256_rijndael_gpow(21) == 0x73);
    } else if k == 22 {
        assert(gf256_rijndael_gpow(22) == 0x95);
    } else if k == 23 {
        assert(gf256_rijndael_gpow(23) == 0xa4);
    } else if k == 24 {
        assert(gf256_rijndael_gpow(24) == 0xf7);
    } else if k == 25 {
        assert(gf256_rijndael_gpow(25) == 0x2);
    } else if k == 26 {
        assert(gf256_rijndael_gpow(26) == 0x6);
    } else if k == 27 {
        assert(gf256_rijndael_gpow(27) == 0xa);
    } else if k == 28 {
        assert(gf256_rijndael_gpow(28) == 0x1e);
    } else if k == 29 {
        assert(gf256_rijndael_gpow(29) == 0x22);
    } else if k == 30 {
        assert(gf256_rijndael_gpow(30) == 0x66);
    } else if k == 31 {
        assert(gf256_rijndael_gpow(31) == 0xaa);
    }
}

/// The logarithms of the powers `0x3^32` to `0x3^63` in `gf256_rijndael`.
#[verifier::rlimit(40)]
proof fn gf256_rijndael_log_pow_part_1(k: nat)
    requires
        32 <= k < 64,
    ensures
        gf256_rijndael_log(gf256_rijndael_gpow(k)) == k,
{
    gf256_rijndael_powers_0();
    gf256_rijndael_powers_1();
    gf256_rijndael_powers_2();
    gf256_rijndael_powers_3();
    gf256_rijndael_powers_4();
    gf256_rijndael_powers_5();
    gf256_rijndael_powers_6();
    gf256_rijndael_powers_7();
    gf256_rijndael_powers_8();
    gf256_rijndael_powers_9();
    gf256_rijndael_powers_10();
    gf256_rijndael_powers_11();
    gf256_rijndael_powers_12();
    gf256_rijndael_powers_13();
    gf256_rijndael_powers_14();
    gf256_rijndael_powers_15();
    if k == 32 {
        assert(gf256_rijndael_gpow(32) == 0xe5);
    } else if k == 33 {
        assert(gf256_rijndael_gpow(33) == 0x34);
    } else if k == 34 {
        assert(gf256_rijndael_gpow(34) == 0x5c);
    } else if k == 35 {
        assert(gf256_rijndael_gpow(35) == 0xe4);
    } else if k == 36 {
        assert(gf256_rijndael_gpow(36) == 0x37);
    } else if k == 37 {
        assert(gf256_rijndael_gpow(37) == 0x59);
    } else if k == 38 {
        assert(gf256_rijndael_gpow(38) == 0xeb);
    } else if k == 39 {
        assert(gf256_rijndael_gpow(39) == 0x26);
    } else if k == 40 {
        assert(gf256_rijndael_gpow(40) == 0x6a);
    } else if k == 41 {
        assert(gf256_rijndael_gpow(41) == 0xbe);
    } else if k == 42 {
        assert(gf256_rijndael_gpow(42) == 0xd9);
    } else if k == 43 {
        assert(gf256_rijndael_gpow(43) == 0x70);
    } else if k == 44 {
        assert(gf256_rijndael_gpow(44) == 0x90);
    } else if k == 45 {
        assert(gf256_rijndael_gpow(45) == 0xab);
    } else if k == 46 {
        assert(gf256_rijndael_gpow(46) == 0xe6);
    } else if k == 47 {
        assert(gf256_rijndael_gpow(47) == 0x31);
    } else if k == 48 {
        assert(gf256_rijndael_gpow(48) == 0x53);
    } else if k == 49 {
        assert(gf256_rijndael_gpow(49) == 0xf5);
    } else if k == 50 {
        assert(gf256_rijndael_gpow(50) == 0x4);
    } else if k == 51 {
        assert(gf256_rijndael_gpow(51) == 0xc);
    } else if k == 52 {
        assert(gf256_rijndael_gpow(52) == 0x14);
    } else if k == 53 {
        assert(gf256_rijndael_gpow(53) == 0x3c);
    } else if k == 54 {
        assert(gf256_rijndael_gpow(54) == 0x44);
    } else if k == 55 {
        assert(gf256_rijndael_gpow(55) == 0xcc);
    } else if k == 56 {
        assert(gf256_rijndael_gpow(56) == 0x4f);
    } else if k == 57 {
        assert(gf256_rijndael_gpow(57) == 0xd1);
    } else if k == 58 {
        assert(gf256_rijndael_gpow(58) == 0x68);
    } else if k == 59 {
        assert(gf256_rijndael_gpow(59) == 0xb8);
    } else if k == 60 {
        assert(gf256_rijndael_gpow(60) == 0xd3);
    } else if k == 61 {
        assert(gf256_rijndael_gpow(61) == 0x6e);
    } else if k == 62 {
        assert(gf256_rijndael_gpow(62) == 0xb2);
    } else if k == 63 {
        assert(gf256_rijndael_gpow(63) == 0xcd);
    }
}

/// The logarithms of the powers `0x3^64` to `0x3^95` in `gf256_rijndael`.
#[verifier::rlimit(40)]
proof fn gf256_rijndael_log_pow_part_2(k: nat)
    requires
        64 <= k < 96,
    ensures
        gf256_rijndael_log(gf256_rijndael_gpow(k)) == k,
{
    gf256_rijndael_powers_0();
    gf256_rijndael_powers_1();
    gf256_rijndael_powers_2();
    gf256_rijndael_powers_3();
    gf256_rijndael_powers_4();
    gf256_rijndael_powers_5();
    gf256_rijndael_powers_6();
    gf256_rijndael_powers_7();
    gf256_rijndael_powers_8();
    gf256_rijndael_powers_9();
    gf256_rijndael_powers_10();
    gf256_rijndael_powers_11();
    gf256_rijndael_powers_12();
    gf256_rijndael_powers_13();
    gf256_rijndael_powers_14();
    gf256_rijndael_powers_15();
    if k == 64 {
        assert(gf256_rijndael_gpow(64) == 0x4c);
    } else if k == 65 {
        assert(gf256_rijndael_gpow(65) == 0xd4);
    } else if k == 66 {
        assert(gf256_rijndael_gpow(66) == 0x67);
    } else if k == 67 {
        assert(gf256_rijndael_gpow(67) == 0xa9);
    } else if k == 68 {
        assert(gf256_rijndael_gpow(68) == 0xe0);
    } else if k == 69 {
        assert(gf256_rijndael_gpow(69) == 0x3b);
    } else if k == 70 {
        assert(gf256_rijndael_gpow(70) == 0x4d);
    } else if k == 71 {
        assert(gf256_rijndael_gpow(71) == 0xd7);
    } else if k == 72 {
        assert(gf256_rijndael_gpow(72) == 0x62);
    } else if k == 73 {
        assert(gf256_rijndael_gpow(73) == 0xa6);
    } else if k == 74 {
        assert(gf256_rijndael_gpow(74) == 0xf1);
    } else if k == 75 {
        assert(gf256_rijndael_gpow(75) == 0x8);
    } else if k == 76 {
        assert(gf256_rijndael_gpow(76) == 0x18);
    } else if k == 77 {
        assert(gf256_rijndael_gpow(77) == 0x28);
    } else if k == 78 {
        assert(gf256_rijndael_gpow(78) == 0x78);
    } else if k == 79 {
        assert(gf256_rijndael_gpow(79) == 0x88);
    } else if k == 80 {
        assert(gf256_rijndael_gpow(80) == 0x83);
    } else if k == 81 {
        assert(gf256_rijndael_gpow(81) == 0x9e);
    } else if k == 82 {
        assert(gf256_rijndael_gpow(82) == 0xb9);
    } else if k == 83 {
        assert(gf256_rijndael_gpow(83) == 0xd0);
    } else if k == 84 {
        assert(gf256_rijndael_gpow(84) == 0x6b);
    } else if k == 85 {
        assert(gf256_rijndael_gpow(85) == 0xbd);
    } else if k == 86 {
        assert(gf256_rijndael_gpow(86) == 0xdc);
    } else if k == 87 {
        assert(gf256_rijndael_gpow(87) == 0x7f);
    } else if k == 88 {
        assert(gf256_rijndael_gpow(88) == 0x81);
    } else if k == 89 {
        assert(gf256_rijndael_gpow(89) == 0x98);
    } else if k == 90 {
        assert(gf256_rijndael_gpow(90) == 0xb3);
    } else if k == 91 {
        assert(gf256_rijndael_gpow(91) == 0xce);
    } else if k == 92 {
        assert(gf256_rijndael_gpow(92) == 0x49);
    } else if k == 93 {
        assert(gf256_rijndael_gpow(93) == 0xdb);
    } else if k == 94 {
        assert(gf256_rijndael_gpow(94) == 0x76);
    } else if k == 95 {
        assert(gf256_rijndael_gpow(95) == 0x9a);
    }
}

/// The logarithms of the powers `0x3^96` to `0x3^127` in `gf256_rijndael`.
#[verifier::rlimit(40)]
proof fn gf256_rijndael_log_pow_part_3(k: nat)
    requires
        96 <= k < 128,
    ensures
        gf256_rijndael_log(gf256_rijndael_gpow(k)) == k,
{
    gf256_rijndael_powers_0();
    gf256_rijndael_powers_1();
    gf256_rijndael_powers_2();
    gf256_rijndael_powers_3();
    gf256_rijndael_powers_4();
    gf256_rijndael_powers_5();
    gf256_rijndael_powers_6();
    gf256_rijndael_powers_7();
    gf256_rijndael_powers_8();
    gf256_rijndael_powers_9();
    gf256_rijndael_powers_10();
    gf256_rijndael_powers_11();
    gf256_rijndael_powers_12();
    gf256_rijndael_powers_13();
    gf256_rijndael_powers_14();
    gf256_rijndael_powers_15();
    if k == 96 {
        assert(gf256_rijndael_gpow(96) == 0xb5);
    } else if k == 97 {
        assert(gf256_rijndael_gpow(97) == 0xc4);
    } else if k == 98 {
        assert(gf256_rijndael_gpow(98) == 0x57);
    } else if k == 99 {
        assert(gf256_rijndael_gpow(99) == 0xf9);
    } else if k == 100 {
        assert(gf256_rijndael_gpow(100) == 0x10);
    } else if k == 101 {
        assert(gf256_rijndael_gpow(101) == 0x30);
    } else if k == 102 {
        assert(gf256_rijndael_gpow(102) == 0x50);
    } else if k == 103 {
        assert(gf256_rijndael_gpow(103) == 0xf0);
    } else if k == 104 {
        assert(gf256_rijndael_gpow(104) == 0xb);
    } else if k == 105 {
        assert(gf256_rijndael_gpow(105) == 0x1d);
    } else if k == 106 {
        assert(gf256_rijndael_gpow(106) == 0x27);
    } else if k == 107 {
        assert(gf256_rijndael_gpow(107) == 0x69);
    } else if k == 108 {
        assert(gf256_rijndael_gpow(108) == 0xbb);
    } else if k == 109 {
        assert(gf256_rijndael_gpow(109) == 0xd6);
    } else if k == 110 {
        assert(gf256_rijndael_gpow(110) == 0x61);
    } else if k == 111 {
        assert(gf256_rijndael_gpow(111) == 0xa3);
    } else if k == 112 {
        assert(gf256_rijndael_gpow(112) == 0xfe);
    } else if k == 113 {
        assert(gf256_rijndael_gpow(113) == 0x19);
    } else if k == 114 {
        assert(gf256_rijndael_gpow(114) == 0x2b);
    } else if k == 115 {
        assert(gf256_rijndael_gpow(115) == 0x7d);
    } else if k == 116 {
        assert(gf256_rijndael_gpow(116) == 0x87);
    } else if k == 117 {
        assert(gf256_rijndael_gpow(117) == 0x92);
    } else if k == 118 {
        assert(gf256_rijndael_gpow(118) == 0xad);
    } else if k == 119 {
        assert(gf256_rijndael_gpow(119) == 0xec);
    } else if k == 120 {
        assert(gf256_rijndael_gpow(120) == 0x2f);
    } else if k == 121 {
        assert(gf256_rijndael_gpow(121) == 0x71);
    } else if k == 122 {
        assert(gf256_rijndael_gpow(122) == 0x93);
    } else if k == 123 {
        assert(gf256_rijndael_gpow(123) == 0xae);
    } else if k == 124 {
        assert(gf256_rijndael_gpow(124) == 0xe9);
    } else if k == 125 {
        assert(gf256_rijndael_gpow(125) == 0x20);
    } else if k == 126 {
        assert(gf256_rijndael_gpow(126) == 0x60);
    } else if k == 127 {
        assert(gf256_rijndael_gpow(127) == 0xa0);
    }
}

/// The logarithms of the powers `0x3^128` to `0x3^159` in `gf256_rijndael`.
#[verifier::rlimit(40)]
proof fn gf256_rijndael_log_pow_part_4(k: nat)
    requires
        128 <= k < 160,
    ensures
        gf256_rijndael_log(gf256_rijndael_gpow(k)) == k,
{
    gf256_rijndael_powers_0();
    gf256_rijndael_powers_1();
    gf256_rijndael_powers_2();
    gf256_rijndael_powers_3();
    gf256_rijndael_powers_4();
    gf256_rijndael_powers_5();
    gf256_rijndael_powers_6();
    gf256_rijndael_powers_7();
    gf256_rijndael_powers_8();
    gf256_rijndael_powers_9();
    gf256_rijndael_powers_10();
    gf256_rijndael_powers_11();
    gf256_rijndael_powers_12();
    gf256_rijndael_powers_13();
    gf256_rijndael_powers_14();
    gf256_rijndael_powers_15();
    if k == 128 {
        assert(gf256_rijndael_gpow(128) == 0xfb);
    } else if k == 129 {
        assert(gf256_rijndael_gpow(129) == 0x16);
    } else if k == 130 {
        assert(gf256_rijndael_gpow(130) == 0x3a);
    } else if k == 131 {
        assert(gf256_rijndael_gpow(131) == 0x4e);
    } else if k == 132 {
        assert(gf256_rijndael_gpow(132) == 0xd2);
    } else if k == 133 {
        assert(gf256_rijndael_gpow(133) == 0x6d);
    } else if k == 134 {
        assert(gf256_rijndael_gpow(134) == 0xb7);
    } else if k == 135 {
        assert(gf256_rijndael_gpow(135) == 0xc2);
    } else if k == 136 {
        assert(gf256_rijndael_gpow(136) == 0x5d);
    } else if k == 137 {
        assert(gf256_rijndael_gpow(137) == 0xe7);
    } else if k == 138 {
        assert(gf256_rijndael_gpow(138) == 0x32);
    } else if k == 139 {
        assert(gf256_rijndael_gpow(139) == 0x56);
    } else if k == 140 {
        assert(gf256_rijndael_gpow(140) == 0xfa);
    } else if k == 141 {
        assert(gf256_rijndael_gpow(141) == 0x15);
    } else if k == 142 {
        assert(gf256_rijndael_gpow(142) == 0x3f);
    } else if k == 143 {
        assert(gf256_rijndael_gpow(143) == 0x41);
    } else if k == 144 {
        assert(gf256_rijndael_gpow(144) == 0xc3);
    } else if k == 145 {
        assert(gf256_rijndael_gpow(145) == 0x5e);
    } else if k == 146 {
        assert(gf256_rijndael_gpow(146) == 0xe2);
    } else if k == 147 {
        assert(gf256_rijndael_gpow(147) == 0x3d);
    } else if k == 148 {
        assert(gf256_rijndael_gpow(148) == 0x47);
    } else if k == 149 {
        assert(gf256_rijndael_gpow(149) == 0xc9);
    } else if k == 150 {
        assert(gf256_rijndael_gpow(150) == 0x40);
    } else if k == 151 {
        assert(gf256_rijndael_gpow(151) == 0xc0);
    } else if k == 152 {
        assert(gf256_rijndael_gpow(152) == 0x5b);
    } else if k == 153 {
        assert(gf256_rijndael_gpow(153) == 0xed);
    } else if k == 154 {
        assert(gf256_rijndael_gpow(154) == 0x2c);
    } else if k == 155 {
        assert(gf256_rijndael_gpow(155) == 0x74);
    } else if k == 156 {
        assert(gf256_rijndael_gpow(156) == 0x9c);
    } else if k == 157 {
        assert(gf256_rijndael_gpow(157) == 0xbf);
    } else if k == 158 {
        assert(gf256_rijndael_gpow(158) == 0xda);
    } else if k == 159 {
        assert(gf256_rijndael_gpow(159) == 0x75);
    }
}

/// The logarithms of the powers `0x3^160` to `0x3^191` in `gf256_rijndael`.
#[verifier::rlimit(40)]
proof fn gf256_rijndael_log_pow_part_5(k: nat)
    requires
        160 <= k < 192,
    ensures
        gf256_rijndael_log(gf256_rijndael_gpow(k)) == k,
{
    gf256_rijndael_powers_0();
    gf256_rijndael_powers_1();
    gf256_rijndael_powers_2();
    gf256_rijndael_powers_3();
    gf256_rijndael_powers_4();
    gf256_rijndael_powers_5();
    gf256_rijndael_powers_6();
    gf256_rijndael_powers_7();
    gf256_rijndael_powers_8();
    gf256_rijndael_powers_9();
    gf256_rijndael_powers_10();
    gf256_rijndael_powers_11();
    gf256_rijndael_powers_12();
    gf256_rijndael_powers_13();
    gf256_rijndael_powers_14();
    gf256_rijndael_powers_15();
    if k == 160 {
        assert(gf256_rijndael_gpow(160) == 0x9f);
    } else if k == 161 {
        assert(gf256_rijndael_gpow(161) == 0xba);
    } else if k == 162 {
        assert(gf256_rijndael_gpow(162) == 0xd5);
    } else if k == 163 {
        assert(gf256_rijndael_gpow(163) == 0x64);
    } else if k == 164 {
        assert(gf256_rijndael_gpow(164) == 0xac);
    } else if k == 165 {
        assert(gf256_rijndael_gpow(165) == 0xef);
    } else if k == 166 {
        assert(gf256_rijndael_gpow(166) == 0x2a);
    } else if k == 167 {
        assert(gf256_rijndael_gpow(167) == 0x7e);
    } else if k == 168 {
        assert(gf256_rijndael_gpow(168) == 0x82);
    } else if k == 169 {
        assert(gf256_rijndael_gpow(169) == 0x9d);
    } else if k == 170 {
        assert(gf256_rijndael_gpow(170) == 0xbc);
    } else if k == 171 {
        assert(gf256_rijndael_gpow(171) == 0xdf);
    } else if k == 172 {
        assert(gf256_rijndael_gpow(172) == 0x7a);
    } else if k == 173 {
        assert(gf256_rijndael_gpow(173) == 0x8e);
    } else if k == 174 {
        assert(gf256_rijndael_gpow(174) == 0x89);
    } else if k == 175 {
        assert(gf256_rijndael_gpow(175) == 0x80);
    } else if k == 176 {
        assert(gf256_rijndael_gpow(176) == 0x9b);
    } else if k == 177 {
        assert(gf256_rijndael_gpow(177) == 0xb6);
    } else if k == 178 {
        assert(gf256_rijndael_gpow(178) == 0xc1);
    } else if k == 179 {
        assert(gf256_rijndael_gpow(179) == 0x58);
    } else if k == 180 {
        assert(gf256_rijndael_gpow(180) == 0xe8);
    } else if k == 181 {
        assert(gf256_rijndael_gpow(181) == 0x23);
    } else if k == 182 {
        assert(gf256_rijndael_gpow(182) == 0x65);
    } else if k == 183 {
        assert(gf256_rijndael_gpow(183) == 0xaf);
    } else if k == 184 {
        assert(gf256_rijndael_gpow(184) == 0xea);
    } else if k == 185 {
        assert(gf256_rijndael_gpow(185) == 0x25);
    } else if k == 186 {
        assert(gf256_rijndael_gpow(186) == 0x6f);
    } else if k == 187 {
        assert(gf256_rijndael_gpow(187) == 0xb1);
    } else if k == 188 {
        assert(gf256_rijndael_gpow(188) == 0xc8);
    } else if k == 189 {
        assert(gf256_rijndael_gpow(189) == 0x43);
    } else if k == 190 {
        assert(gf256_rijndael_gpow(190) == 0xc5);
    } else if k == 191 {
        assert(gf256_rijndael_gpow(191) == 0x54);
    }
}

/// The logarithms of the powers `0x3^192` to `0x3^223` in `gf256_rijndael`.
#[verifier::rlimit(40)]
proof fn gf256_rijndael_log_pow_part_6(k: nat)
    requires
        192 <= k < 224,
    ensures
        gf256_rijndael_log(gf256_rijndael_gpow(k)) == k,
{
    gf256_rijndael_powers_0();
    gf256_rijndael_powers_1();
    gf256_rijndael_powers_2();
    gf256_rijndael_powers_3();
    gf256_rijndael_powers_4();
    gf256_rijndael_powers_5();
    gf256_rijndael_powers_6();
    gf256_rijndael_powers_7();
    gf256_rijndael_powers_8();
    gf256_rijndael_powers_9();
    gf256_rijndael_powers_10();
    gf256_rijndael_powers_11();
    gf256_rijndael_powers_12();
    gf256_rijndael_powers_13();
    gf256_rijndael_powers_14();
    gf256_rijndael_powers_15();
    if k == 192 {
        assert(gf256_rijndael_gpow(192) == 0xfc);
    } else if k == 193 {
        assert(gf256_rijndael_gpow(193) == 0x1f);
    } else if k == 194 {
        assert(gf256_rijndael_gpow(194) == 0x21);
    } else if k == 195 {
        assert(gf256_rijndael_gpow(195) == 0x63);
    } else if k == 196 {
        assert(gf256_rijndael_gpow(196) == 0xa5);
    } else if k == 197 {
        assert(gf256_rijndael_gpow(197) == 0xf4);
    } else if k == 198 {
        assert(gf256_rijndael_gpow(198) == 0x7);
    } else if k == 199 {
        assert(gf256_rijndael_gpow(199) == 0x9);
    } else if k == 200 {
        assert(gf256_rijndael_gpow(200) == 0x1b);
    } else if k == 201 {
        assert(gf256_rijndael_gpow(201) == 0x2d);
    } else if k == 202 {
        assert(gf256_rijndael_gpow(202) == 0x77);
    } else if k == 203 {
        assert(gf256_rijndael_gpow(203) == 0x99);
    } else if k == 204 {
        assert(gf256_rijndael_gpow(204) == 0xb0);
    } else if k == 205 {
        assert(gf256_rijndael_gpow(205) == 0xcb);
    } else if k == 206 {
        assert(gf256_rijndael_gpow(206) == 0x46);
    } else if k == 207 {
        assert(gf256_rijndael_gpow(207) == 0xca);
    } else if k == 208 {
        assert(gf256_rijndael_gpow(208) == 0x45);
    } else if k == 209 {
        assert(gf256_rijndael_gpow(209) == 0xcf);
    } else if k == 210 {
        assert(gf256_rijndael_gpow(210) == 0x4a);
    } else if k == 211 {
        assert(gf256_rijndael_gpow(211) == 0xde);
    } else if k == 212 {
        assert(gf256_rijndael_gpow(212) == 0x79);
    } else if k == 213 {
        assert(gf256_rijndael_gpow(213) == 0x8b);
    } else if k == 214 {
        assert(gf256_rijndael_gpow(214) == 0x86);
    } else if k == 215 {
        assert(gf256_rijndael_gpow(215) == 0x91);
    } else if k == 216 {
        assert(gf256_rijndael_gpow(216) == 0xa8);
    } else if k == 217 {
        assert(gf256_rijndael_gpow(217) == 0xe3);
    } else if k == 218 {
        assert(gf256_rijndael_gpow(218) == 0x3e);
    } else if k == 219 {
        assert(gf256_rijndael_gpow(219) == 0x42);
    } else if k == 220 {
        assert(gf256_rijndael_gpow(220) == 0xc6);
    } else if k == 221 {
        assert(gf256_rijndael_gpow(221) == 0x51);
    } else if k == 222 {
        assert(gf256_rijndael_gpow(222) == 0xf3);
    } else if k == 223 {
        assert(gf256_rijndael_gpow(223) == 0xe);
    }
}

/// The logarithms of the powers `0x3^224` to `0x3^254` in `gf256_rijndael`.
#[verifier::rlimit(40)]
proof fn gf256_rijndael_log_pow_part_7(k: nat)
    requires
        224 <= k < 255,
    ensures
        gf256_rijndael_log(gf256_rijndael_gpow(k)) == k,
{
    gf256_rijndael_powers_0();
    gf256_rijndael_powers_1();
    gf256_rijndael_powers_2();
    gf256_rijndael_powers_3();
    gf256_rijndael_powers_4();
    gf256_rijndael_powers_5();
    gf256_rijndael_powers_6();
    gf256_rijndael_powers_7();
    gf256_rijndael_powers_8();
    gf256_rijndael_powers_9();
    gf256_rijndael_powers_10();
    gf256_rijndael_powers_11();
    gf256_rijndael_powers_12();
    gf256_rijndael_powers_13();
    gf256_rijndael_powers_14();
    gf256_rijndael_powers_15();
    if k == 224 {
        assert(gf256_rijndael_gpow(224) == 0x12);
    } else if k == 225 {
        assert(gf256_rijndael_gpow(225) == 0x36);
    } else if k == 226 {
        assert(gf256_rijndael_gpow(226) == 0x5a);
    } else if k == 227 {
        assert(gf256_rijndael_gpow(227) == 0xee);
    } else if k == 228 {
        assert(gf256_rijndael_gpow(228) == 0x29);
    } else if k == 229 {
        assert(gf256_rijndael_gpow(229) == 0x7b);
    } else if k == 230 {
        assert(gf256_rijndael_gpow(230) == 0x8d);
    } else if k == 231 {
        assert(gf256_rijndael_gpow(231) == 0x8c);
    } else if k == 232 {
        assert(gf256_rijndael_gpow(232) == 0x8f);
    } else if k == 233 {
        assert(gf256_rijndael_gpow(233) == 0x8a);
    } else if k == 234 {
        assert(gf256_rijndael_gpow(234) == 0x85);
    } else if k == 235 {
        assert(gf256_rijndael_gpow(235) == 0x94);
    } else if k == 236 {
        assert(gf256_rijndael_gpow(236) == 0xa7);
    } else if k == 237 {
        assert(gf256_rijndael_gpow(237) == 0xf2);
    } else if k == 238 {
        assert(gf256_rijndael_gpow(238) == 0xd);
    } else if k == 239 {
        assert(gf256_rijndael_gpow(239) == 0x17);
    } else if k == 240 {
        assert(gf256_rijndael_gpow(240) == 0x39);
    } else if k == 241 {
        assert(gf256_rijndael_gpow(241) == 0x4b);
    } else if k == 242 {
        assert(gf256_rijndael_gpow(242) == 0xdd);
    } else if k == 243 {
        assert(gf256_rijndael_gpow(243) == 0x7c);
    } else if k == 244 {
        assert(gf256_rijndael_gpow(244) == 0x84);
    } else if k == 245 {
        assert(gf256_rijndael_gpow(245) == 0x97);
    } else if k == 246 {
        assert(gf256_rijndael_gpow(246) == 0xa2);
    } else if k == 247 {
        assert(gf256_rijndael_gpow(247) == 0xfd);
    } else if k == 248 {
        assert(gf256_rijndael_gpow(248) == 0x1c);
    } else if k == 249 {
        assert(gf256_rijndael_gpow(249) == 0x24);
    } else if k == 250 {
        assert(gf256_rijndael_gpow(250) == 0x6c);
    } else if k == 251 {
        assert(gf256_rijndael_gpow(251) == 0xb4);
    } else if k == 252 {
        assert(gf256_rijndael_gpow(252) == 0xc7);
    } else if k == 253 {
        assert(gf256_rijndael_gpow(253) == 0x52);
    } else if k == 254 {
        assert(gf256_rijndael_gpow(254) == 0xf6);
    }
}

/// The logarithm of a power of the generator below `255` is its exponent.
pub proof fn lemma_gf256_rijndael_log_of_power(k: nat)
    requires
        k < 255,
    ensures
        gf256_rijndael_log(powmod(0x3, k, 0x11b)) == k,
{
    reveal(gf256_rijndael_gpow);
    if k < 32 {
        gf256_rijndael_log_pow_part_0(k);
    } else if k < 64 {
        gf256_rijndael_log_pow_part_1(k);
    } else if k < 96 {
        gf256_rijndael_log_pow_part_2(k);
    } else if k < 128 {
        gf256_rijndael_log_pow_part_3(k);
    } else if k < 160 {
        gf256_rijndael_log_pow_part_4(k);
    } else if k < 192 {
        gf256_rijndael_log_pow_part_5(k);
    } else if k < 224 {
        gf256_rijndael_log_pow_part_6(k);
    } else {
        gf256_rijndael_log_pow_part_7(k);
    }
}

/// The powers of the generator below `255` are non-zero and distinct.
#[verifier::rlimit(40)]
pub proof fn lemma_gf256_rijndael_powers(x: nat, y: nat)
    requires
        x < 255,
        y < 255,
    ensures
        x != y ==> powmod(0x3, x, 0x11b) != powmod(0x3, y, 0x11b),
        powmod(0x3, x, 0x11b) != 0,
{
    lemma_gf256_rijndael_log_of_power(x);
    lemma_gf256_rijndael_log_of_power(y);
    gf256_rijndael_powers_0();
    reveal(gf256_rijndael_gpow);
    assert(gf256_rijndael_log(0) == 0);
}

/// Every non-zero `b` of `gf256_rijndael` satisfies `b^255 == 1`.
pub proof fn lemma_gf256_rijndael_order(b: nat)
    requires
        0 < b < 0x100,
    ensures
        powmod(b, 255, 0x11b) == 1,
{
    lemma_gf256_rijndael_log(b);
    gf256_rijndael_powers_0();
    gf256_rijndael_powers_1();
    gf256_rijndael_powers_2();
    gf256_rijndael_powers_3();
    gf256_rijndael_powers_4();
    gf256_rijndael_powers_5();
    gf256_rijndael_powers_6();
    gf256_rijndael_powers_7();
    gf256_rijndael_powers_8();
    gf256_rijndael_powers_9();
    gf256_rijndael_powers_10();
    gf256_rijndael_powers_11();
    gf256_rijndael_powers_12();
    gf256_rijndael_powers_13();
    gf256_rijndael_powers_14();
    gf256_rijndael_powers_15();
    reveal(gf256_rijndael_gpow);
    assert(bitlen(0x11b) == 9) by {
        reveal_with_fuel(bitlen, 11);
    }
    lemma_power_of_generator(0x3, gf256_rijndael_log(b), 255, 0x11b, 8);
}

} // verus!
