//! Certificates that `2` generates the multiplicative group of each of the
//! larger fields, so that every non-zero element has an inverse there. The
//! powers of `2` that the certificates need are evaluated on machine words
//! by a multiplication that is proved to agree with the model.

use vstd::prelude::*;
use vstd::arithmetic::div_mod::{lemma_div_denominator, lemma_fundamental_div_mod_converse};
use crate::poly::{
    exp2, bitlen, pmul, pmod, mulmod, powmod, lemma_exp2_pos, lemma_exp2_mono, lemma_exp2_add,
    lemma_bitlen_bound, lemma_bitlen_le, lemma_bitlen_exact, lemma_pmod_small, lemma_pmul_zero,
    lemma_pmul_unfold, lemma_pmul_exp2, lemma_pmod_pmul, lemma_pdivmod_pxor, lemma_pxor_bound,
    lemma_mulmod_one, lemma_powmod_add,
};
use crate::bits::{lemma_xor, lemma_shr, lemma_shl, lemma_exp2_values};
use crate::arith::lemma_reduce_once;
use crate::cyclic::{is_prime, prod, lemma_order, lemma_generator_covers};
use crate::raid::algebra::field_inverts;

verus! {

/// One digit of a product modulo `m` on machine words: double the
/// accumulator, subtract `m` when it reaches `w + 1` digits, and add `a`
/// when digit `i` of `b` is set.
#[verifier::opaque]
pub open spec fn mstep(acc: u128, a: u128, b: u128, m: u128, w: u32, i: u32) -> u128 {
    let d: u128 = acc << 1u32;
    let r: u128 = if d >= (1u128 << w) { d ^ m } else { d };
    let t: u128 = if (b >> i) % 2u128 == 1u128 { a } else { 0u128 };
    t ^ r
}

/// The product `a * b` modulo `m` on machine words, digit by digit of `b`
/// from the 64th down.
#[verifier::opaque]
pub open spec fn mulbv(a: u128, b: u128, m: u128, w: u32) -> u128 {
    let x0: u128 = 0u128;
    let x1: u128 = mstep(x0, a, b, m, w, 63u32);
    let x2: u128 = mstep(x1, a, b, m, w, 62u32);
    let x3: u128 = mstep(x2, a, b, m, w, 61u32);
    let x4: u128 = mstep(x3, a, b, m, w, 60u32);
    let x5: u128 = mstep(x4, a, b, m, w, 59u32);
    let x6: u128 = mstep(x5, a, b, m, w, 58u32);
    let x7: u128 = mstep(x6, a, b, m, w, 57u32);
    let x8: u128 = mstep(x7, a, b, m, w, 56u32);
    let x9: u128 = mstep(x8, a, b, m, w, 55u32);
    let x10: u128 = mstep(x9, a, b, m, w, 54u32);
    let x11: u128 = mstep(x10, a, b, m, w, 53u32);
    let x12: u128 = mstep(x11, a, b, m, w, 52u32);
    let x13: u128 = mstep(x12, a, b, m, w, 51u32);
    let x14: u128 = mstep(x13, a, b, m, w, 50u32);
    let x15: u128 = mstep(x14, a, b, m, w, 49u32);
    let x16: u128 = mstep(x15, a, b, m, w, 48u32);
    let x17: u128 = mstep(x16, a, b, m, w, 47u32);
    let x18: u128 = mstep(x17, a, b, m, w, 46u32);
    let x19: u128 = mstep(x18, a, b, m, w, 45u32);
    let x20: u128 = mstep(x19, a, b, m, w, 44u32);
    let x21: u128 = mstep(x20, a, b, m, w, 43u32);
    let x22: u128 = mstep(x21, a, b, m, w, 42u32);
    let x23: u128 = mstep(x22, a, b, m, w, 41u32);
    let x24: u128 = mstep(x23, a, b, m, w, 40u32);
    let x25: u128 = mstep(x24, a, b, m, w, 39u32);
    let x26: u128 = mstep(x25, a, b, m, w, 38u32);
    let x27: u128 = mstep(x26, a, b, m, w, 37u32);
    let x28: u128 = mstep(x27, a, b, m, w, 36u32);
    let x29: u128 = mstep(x28, a, b, m, w, 35u32);
    let x30: u128 = mstep(x29, a, b, m, w, 34u32);
    let x31: u128 = mstep(x30, a, b, m, w, 33u32);
    let x32: u128 = mstep(x31, a, b, m, w, 32u32);
    let x33: u128 = mstep(x32, a, b, m, w, 31u32);
    let x34: u128 = mstep(x33, a, b, m, w, 30u32);
    let x35: u128 = mstep(x34, a, b, m, w, 29u32);
    let x36: u128 = mstep(x35, a, b, m, w, 28u32);
    let x37: u128 = mstep(x36, a, b, m, w, 27u32);
    let x38: u128 = mstep(x37, a, b, m, w, 26u32);
    let x39: u128 = mstep(x38, a, b, m, w, 25u32);
    let x40: u128 = mstep(x39, a, b, m, w, 24u32);
    let x41: u128 = mstep(x40, a, b, m, w, 23u32);
    let x42: u128 = mstep(x41, a, b, m, w, 22u32);
    let x43: u128 = mstep(x42, a, b, m, w, 21u32);
    let x44: u128 = mstep(x43, a, b, m, w, 20u32);
    let x45: u128 = mstep(x44, a, b, m, w, 19u32);
    let x46: u128 = mstep(x45, a, b, m, w, 18u32);
    let x47: u128 = mstep(x46, a, b, m, w, 17u32);
    let x48: u128 = mstep(x47, a, b, m, w, 16u32);
    let x49: u128 = mstep(x48, a, b, m, w, 15u32);
    let x50: u128 = mstep(x49, a, b, m, w, 14u32);
    let x51: u128 = mstep(x50, a, b, m, w, 13u32);
    let x52: u128 = mstep(x51, a, b, m, w, 12u32);
    let x53: u128 = mstep(x52, a, b, m, w, 11u32);
    let x54: u128 = mstep(x53, a, b, m, w, 10u32);
    let x55: u128 = mstep(x54, a, b, m, w, 9u32);
    let x56: u128 = mstep(x55, a, b, m, w, 8u32);
    let x57: u128 = mstep(x56, a, b, m, w, 7u32);
    let x58: u128 = mstep(x57, a, b, m, w, 6u32);
    let x59: u128 = mstep(x58, a, b, m, w, 5u32);
    let x60: u128 = mstep(x59, a, b, m, w, 4u32);
    let x61: u128 = mstep(x60, a, b, m, w, 3u32);
    let x62: u128 = mstep(x61, a, b, m, w, 2u32);
    let x63: u128 = mstep(x62, a, b, m, w, 1u32);
    let x64: u128 = mstep(x63, a, b, m, w, 0u32);
    x64
}

/// Each digit keeps the accumulator equal to `a` times the digits of `b`
/// seen so far.
proof fn lemma_mstep(acc: u128, a: u128, b: u128, m: u128, w: u32, i: u32)
    requires
        bitlen(m as nat) == w + 1,
        1 <= w <= 64,
        i < 64,
        (a as nat) < exp2(w as nat),
        (acc as nat) < exp2(w as nat),
        acc as nat == mulmod(a as nat, b as nat / exp2(i as nat + 1), m as nat),
    ensures
        mstep(acc, a, b, m, w, i) as nat == mulmod(a as nat, b as nat / exp2(i as nat), m as nat),
        (mstep(acc, a, b, m, w, i) as nat) < exp2(w as nat),
{
    reveal(mstep);
    let mm = m as nat;
    lemma_exp2_values();
    lemma_bitlen_bound(mm);
    lemma_exp2_pos(w as nat);
    lemma_exp2_mono(w as nat, 64);
    lemma_shr(b, i);
    lemma_exp2_pos(i as nat);
    lemma_div_denominator(b as int, exp2(i as nat) as int, 2);
    assert(exp2(i as nat + 1) == 2 * exp2(i as nat));
    lemma_shl(acc, 1);
    lemma_shl(1, w);
    assert(exp2(w as nat + 1) == 2 * exp2(w as nat));
    lemma_reduce_once(2 * (acc as nat), mm, w as nat);
    let d: u128 = acc << 1u32;
    let r: u128 = if d >= (1u128 << w) { d ^ m } else { d };
    if d >= (1u128 << w) {
        lemma_xor(d, m);
    }
    let q: u128 = b >> i;
    let t: u128 = if q % 2u128 == 1u128 { a } else { 0u128 };
    let y = pmul(a as nat, q as nat / 2);
    lemma_pmul_exp2(y, 1);
    lemma_pmul_exp2(acc as nat, 1);
    lemma_pmod_pmul(y, 2, mm);
    assert(r as nat == pmod(2 * y, mm));
    lemma_pmul_unfold(a as nat, q as nat);
    lemma_pdivmod_pxor(t as nat, 2 * y, mm);
    lemma_bitlen_le(t as nat, w as nat);
    lemma_pmod_small(t as nat, mm);
    lemma_xor(t, r);
    lemma_pxor_bound(t as nat, r as nat, w as nat);
}

/// The word-level product is the product of the model.
#[verifier::spinoff_prover]
#[verifier::rlimit(40)]
pub proof fn lemma_mulbv(a: u128, b: u128, m: u128, w: u32)
    requires
        bitlen(m as nat) == w + 1,
        1 <= w <= 64,
        (a as nat) < exp2(w as nat),
        (b as nat) < exp2(w as nat),
    ensures
        mulmod(a as nat, b as nat, m as nat) == mulbv(a, b, m, w) as nat,
{
    reveal(mulbv);
    lemma_exp2_values();
    lemma_exp2_mono(w as nat, 64);
    lemma_fundamental_div_mod_converse(b as int, exp2(64) as int, 0, b as int);
    lemma_pmul_zero(a as nat);
    lemma_pmod_small(0, m as nat);
    assert(exp2(63 + 1) == exp2(64));
    let x0: u128 = 0u128;
    lemma_mstep(x0, a, b, m, w, 63u32);
    let x1: u128 = mstep(x0, a, b, m, w, 63u32);
    lemma_mstep(x1, a, b, m, w, 62u32);
    let x2: u128 = mstep(x1, a, b, m, w, 62u32);
    lemma_mstep(x2, a, b, m, w, 61u32);
    let x3: u128 = mstep(x2, a, b, m, w, 61u32);
    lemma_mstep(x3, a, b, m, w, 60u32);
    let x4: u128 = mstep(x3, a, b, m, w, 60u32);
    lemma_mstep(x4, a, b, m, w, 59u32);
    let x5: u128 = mstep(x4, a, b, m, w, 59u32);
    lemma_mstep(x5, a, b, m, w, 58u32);
    let x6: u128 = mstep(x5, a, b, m, w, 58u32);
    lemma_mstep(x6, a, b, m, w, 57u32);
    let x7: u128 = mstep(x6, a, b, m, w, 57u32);
    lemma_mstep(x7, a, b, m, w, 56u32);
    let x8: u128 = mstep(x7, a, b, m, w, 56u32);
    lemma_mstep(x8, a, b, m, w, 55u32);
    let x9: u128 = mstep(x8, a, b, m, w, 55u32);
    lemma_mstep(x9, a, b, m, w, 54u32);
    let x10: u128 = mstep(x9, a, b, m, w, 54u32);
    lemma_mstep(x10, a, b, m, w, 53u32);
    let x11: u128 = mstep(x10, a, b, m, w, 53u32);
    lemma_mstep(x11, a, b, m, w, 52u32);
    let x12: u128 = mstep(x11, a, b, m, w, 52u32);
    lemma_mstep(x12, a, b, m, w, 51u32);
    let x13: u128 = mstep(x12, a, b, m, w, 51u32);
    lemma_mstep(x13, a, b, m, w, 50u32);
    let x14: u128 = mstep(x13, a, b, m, w, 50u32);
    lemma_mstep(x14, a, b, m, w, 49u32);
    let x15: u128 = mstep(x14, a, b, m, w, 49u32);
    lemma_mstep(x15, a, b, m, w, 48u32);
    let x16: u128 = mstep(x15, a, b, m, w, 48u32);
    lemma_mstep(x16, a, b, m, w, 47u32);
    let x17: u128 = mstep(x16, a, b, m, w, 47u32);
    lemma_mstep(x17, a, b, m, w, 46u32);
    let x18: u128 = mstep(x17, a, b, m, w, 46u32);
    lemma_mstep(x18, a, b, m, w, 45u32);
    let x19: u128 = mstep(x18, a, b, m, w, 45u32);
    lemma_mstep(x19, a, b, m, w, 44u32);
    let x20: u128 = mstep(x19, a, b, m, w, 44u32);
    lemma_mstep(x20, a, b, m, w, 43u32);
    let x21: u128 = mstep(x20, a, b, m, w, 43u32);
    lemma_mstep(x21, a, b, m, w, 42u32);
    let x22: u128 = mstep(x21, a, b, m, w, 42u32);
    lemma_mstep(x22, a, b, m, w, 41u32);
    let x23: u128 = mstep(x22, a, b, m, w, 41u32);
    lemma_mstep(x23, a, b, m, w, 40u32);
    let x24: u128 = mstep(x23, a, b, m, w, 40u32);
    lemma_mstep(x24, a, b, m, w, 39u32);
    let x25: u128 = mstep(x24, a, b, m, w, 39u32);
    lemma_mstep(x25, a, b, m, w, 38u32);
    let x26: u128 = mstep(x25, a, b, m, w, 38u32);
    lemma_mstep(x26, a, b, m, w, 37u32);
    let x27: u128 = mstep(x26, a, b, m, w, 37u32);
    lemma_mstep(x27, a, b, m, w, 36u32);
    let x28: u128 = mstep(x27, a, b, m, w, 36u32);
    lemma_mstep(x28, a, b, m, w, 35u32);
    let x29: u128 = mstep(x28, a, b, m, w, 35u32);
    lemma_mstep(x29, a, b, m, w, 34u32);
    let x30: u128 = mstep(x29, a, b, m, w, 34u32);
    lemma_mstep(x30, a, b, m, w, 33u32);
    let x31: u128 = mstep(x30, a, b, m, w, 33u32);
    lemma_mstep(x31, a, b, m, w, 32u32);
    let x32: u128 = mstep(x31, a, b, m, w, 32u32);
    lemma_mstep(x32, a, b, m, w, 31u32);
    let x33: u128 = mstep(x32, a, b, m, w, 31u32);
    lemma_mstep(x33, a, b, m, w, 30u32);
    let x34: u128 = mstep(x33, a, b, m, w, 30u32);
    lemma_mstep(x34, a, b, m, w, 29u32);
    let x35: u128 = mstep(x34, a, b, m, w, 29u32);
    lemma_mstep(x35, a, b, m, w, 28u32);
    let x36: u128 = mstep(x35, a, b, m, w, 28u32);
    lemma_mstep(x36, a, b, m, w, 27u32);
    let x37: u128 = mstep(x36, a, b, m, w, 27u32);
    lemma_mstep(x37, a, b, m, w, 26u32);
    let x38: u128 = mstep(x37, a, b, m, w, 26u32);
    lemma_mstep(x38, a, b, m, w, 25u32);
    let x39: u128 = mstep(x38, a, b, m, w, 25u32);
    lemma_mstep(x39, a, b, m, w, 24u32);
    let x40: u128 = mstep(x39, a, b, m, w, 24u32);
    lemma_mstep(x40, a, b, m, w, 23u32);
    let x41: u128 = mstep(x40, a, b, m, w, 23u32);
    lemma_mstep(x41, a, b, m, w, 22u32);
    let x42: u128 = mstep(x41, a, b, m, w, 22u32);
    lemma_mstep(x42, a, b, m, w, 21u32);
    let x43: u128 = mstep(x42, a, b, m, w, 21u32);
    lemma_mstep(x43, a, b, m, w, 20u32);
    let x44: u128 = mstep(x43, a, b, m, w, 20u32);
    lemma_mstep(x44, a, b, m, w, 19u32);
    let x45: u128 = mstep(x44, a, b, m, w, 19u32);
    lemma_mstep(x45, a, b, m, w, 18u32);
    let x46: u128 = mstep(x45, a, b, m, w, 18u32);
    lemma_mstep(x46, a, b, m, w, 17u32);
    let x47: u128 = mstep(x46, a, b, m, w, 17u32);
    lemma_mstep(x47, a, b, m, w, 16u32);
    let x48: u128 = mstep(x47, a, b, m, w, 16u32);
    lemma_mstep(x48, a, b, m, w, 15u32);
    let x49: u128 = mstep(x48, a, b, m, w, 15u32);
    lemma_mstep(x49, a, b, m, w, 14u32);
    let x50: u128 = mstep(x49, a, b, m, w, 14u32);
    lemma_mstep(x50, a, b, m, w, 13u32);
    let x51: u128 = mstep(x50, a, b, m, w, 13u32);
    lemma_mstep(x51, a, b, m, w, 12u32);
    let x52: u128 = mstep(x51, a, b, m, w, 12u32);
    lemma_mstep(x52, a, b, m, w, 11u32);
    let x53: u128 = mstep(x52, a, b, m, w, 11u32);
    lemma_mstep(x53, a, b, m, w, 10u32);
    let x54: u128 = mstep(x53, a, b, m, w, 10u32);
    lemma_mstep(x54, a, b, m, w, 9u32);
    let x55: u128 = mstep(x54, a, b, m, w, 9u32);
    lemma_mstep(x55, a, b, m, w, 8u32);
    let x56: u128 = mstep(x55, a, b, m, w, 8u32);
    lemma_mstep(x56, a, b, m, w, 7u32);
    let x57: u128 = mstep(x56, a, b, m, w, 7u32);
    lemma_mstep(x57, a, b, m, w, 6u32);
    let x58: u128 = mstep(x57, a, b, m, w, 6u32);
    lemma_mstep(x58, a, b, m, w, 5u32);
    let x59: u128 = mstep(x58, a, b, m, w, 5u32);
    lemma_mstep(x59, a, b, m, w, 4u32);
    let x60: u128 = mstep(x59, a, b, m, w, 4u32);
    lemma_mstep(x60, a, b, m, w, 3u32);
    let x61: u128 = mstep(x60, a, b, m, w, 3u32);
    lemma_mstep(x61, a, b, m, w, 2u32);
    let x62: u128 = mstep(x61, a, b, m, w, 2u32);
    lemma_mstep(x62, a, b, m, w, 1u32);
    let x63: u128 = mstep(x62, a, b, m, w, 1u32);
    lemma_mstep(x63, a, b, m, w, 0u32);
    let x64: u128 = mstep(x63, a, b, m, w, 0u32);
    assert(exp2(0) == 1);
    assert(b as nat / 1 == b as nat);
}

/// The small prime factors of the group orders below have no divisor
/// between one and themselves.
proof fn lemma_prime_digits(d: u32) by (bit_vector)
    requires
        2 <= d,
    ensures
        d < 3 ==> 3u32 % d != 0,
        d < 5 ==> 5u32 % d != 0,
        d < 7 ==> 7u32 % d != 0,
        d < 13 ==> 13u32 % d != 0,
        d < 17 ==> 17u32 % d != 0,
        d < 47 ==> 47u32 % d != 0,
        d < 257 ==> 257u32 % d != 0,
        d < 641 ==> 641u32 % d != 0,
{
}

/// `65537` has no divisor between one and itself.
proof fn lemma_prime_65537(d: u32) by (bit_vector)
    requires
        2 <= d < 65537,
    ensures
        65537u32 % d != 0,
{
}

/// `178481` has no divisor between one and itself.
proof fn lemma_prime_178481(d: u32) by (bit_vector)
    requires
        2 <= d < 178481,
    ensures
        178481u32 % d != 0,
{
}

/// `6700417` has no divisor between one and itself.
proof fn lemma_prime_6700417(d: u32) by (bit_vector)
    requires
        2 <= d < 6700417,
    ensures
        6700417u32 % d != 0,
{
}

/// The prime factors of the group orders below.
pub proof fn lemma_primes()
    ensures
        is_prime(3),
        is_prime(5),
        is_prime(7),
        is_prime(13),
        is_prime(17),
        is_prime(47),
        is_prime(257),
        is_prime(641),
        is_prime(65537),
        is_prime(178481),
        is_prime(6700417),
{
    assert forall|d: nat| 2 <= d < 3 implies #[trigger] (3nat % d) != 0 by {
        lemma_prime_digits(d as u32);
    }
    assert forall|d: nat| 2 <= d < 5 implies #[trigger] (5nat % d) != 0 by {
        lemma_prime_digits(d as u32);
    }
    assert forall|d: nat| 2 <= d < 7 implies #[trigger] (7nat % d) != 0 by {
        lemma_prime_digits(d as u32);
    }
    assert forall|d: nat| 2 <= d < 13 implies #[trigger] (13nat % d) != 0 by {
        lemma_prime_digits(d as u32);
    }
    assert forall|d: nat| 2 <= d < 17 implies #[trigger] (17nat % d) != 0 by {
        lemma_prime_digits(d as u32);
    }
    assert forall|d: nat| 2 <= d < 47 implies #[trigger] (47nat % d) != 0 by {
        lemma_prime_digits(d as u32);
    }
    assert forall|d: nat| 2 <= d < 257 implies #[trigger] (257nat % d) != 0 by {
        lemma_prime_digits(d as u32);
    }
    assert forall|d: nat| 2 <= d < 641 implies #[trigger] (641nat % d) != 0 by {
        lemma_prime_digits(d as u32);
    }
    assert forall|d: nat| 2 <= d < 65537 implies #[trigger] (65537nat % d) != 0 by {
        lemma_prime_65537(d as u32);
    }
    assert forall|d: nat| 2 <= d < 178481 implies #[trigger] (178481nat % d) != 0 by {
        lemma_prime_178481(d as u32);
    }
    assert forall|d: nat| 2 <= d < 6700417 implies #[trigger] (6700417nat % d) != 0 by {
        lemma_prime_6700417(d as u32);
    }
}

/// `2` is reduced, and its first power is itself.
proof fn lemma_first_power(m: nat, w: nat)
    requires
        bitlen(m) == w + 1,
        w >= 2,
    ensures
        powmod(2, 1, m) == 2,
        powmod(2, 0, m) == 1,
{
    crate::field::lemma_pmod_one(m, w);
    assert(bitlen(2) == 2) by {
        reveal_with_fuel(bitlen, 3);
    }
    lemma_pmod_small(2, m);
    lemma_mulmod_one(2, m);
    assert(powmod(2, 1, m) == mulmod(2, powmod(2, 0, m), m));
}

/// Products of powers of `2` in `gf4096`, evaluated on machine words.
proof fn gf4096_products() by (bit_vector)
    ensures
        mulbv(0x2, 0x2, 0x1053, 12u32) == 0x4,
        mulbv(0x4, 0x4, 0x1053, 12u32) == 0x10,
        mulbv(0x10, 0x10, 0x1053, 12u32) == 0x100,
        mulbv(0x100, 0x100, 0x1053, 12u32) == 0x530,
        mulbv(0x530, 0x530, 0x1053, 12u32) == 0x22f,
        mulbv(0x22f, 0x22f, 0x1053, 12u32) == 0xc6,
        mulbv(0xc6, 0xc6, 0x1053, 12u32) == 0x10b,
        mulbv(0x10b, 0x10b, 0x1053, 12u32) == 0x575,
        mulbv(0x575, 0x575, 0x1053, 12u32) == 0x26d,
        mulbv(0x26d, 0x26d, 0x1053, 12u32) == 0x91,
        mulbv(0x91, 0x91, 0x1053, 12u32) == 0x4d,
        mulbv(0x2, 0x4, 0x1053, 12u32) == 0x8,
        mulbv(0x8, 0x10, 0x1053, 12u32) == 0x80,
        mulbv(0x80, 0x100, 0x1053, 12u32) == 0x298,
        mulbv(0x298, 0x530, 0x1053, 12u32) == 0x93e,
        mulbv(0x93e, 0x22f, 0x1053, 12u32) == 0x63,
        mulbv(0x63, 0xc6, 0x1053, 12u32) == 0x8ac,
        mulbv(0x8ac, 0x10b, 0x1053, 12u32) == 0xa93,
        mulbv(0xa93, 0x575, 0x1053, 12u32) == 0x91f,
        mulbv(0x91f, 0x26d, 0x1053, 12u32) == 0x861,
        mulbv(0x861, 0x91, 0x1053, 12u32) == 0x80f,
        mulbv(0x80f, 0x4d, 0x1053, 12u32) == 0x1,
        mulbv(0x2, 0x10, 0x1053, 12u32) == 0x20,
        mulbv(0x20, 0x530, 0x1053, 12u32) == 0x43e,
        mulbv(0x43e, 0xc6, 0x1053, 12u32) == 0x754,
        mulbv(0x754, 0x575, 0x1053, 12u32) == 0x1b2,
        mulbv(0x1b2, 0x91, 0x1053, 12u32) == 0x46,
        mulbv(0x8, 0x530, 0x1053, 12u32) == 0x926,
        mulbv(0x926, 0x22f, 0x1053, 12u32) == 0x31e,
        mulbv(0x31e, 0x575, 0x1053, 12u32) == 0xd02,
        mulbv(0xd02, 0x26d, 0x1053, 12u32) == 0xc8e,
        mulbv(0x2, 0x100, 0x1053, 12u32) == 0x200,
        mulbv(0x200, 0xc6, 0x1053, 12u32) == 0xba8,
        mulbv(0xba8, 0x26d, 0x1053, 12u32) == 0x3a9,
        mulbv(0x8, 0x100, 0x1053, 12u32) == 0x800,
        mulbv(0x800, 0x530, 0x1053, 12u32) == 0xab0,
        mulbv(0xab0, 0x22f, 0x1053, 12u32) == 0x103,
        mulbv(0x103, 0x575, 0x1053, 12u32) == 0xa85,
{
}

/// The sizes of `gf4096`.
pub proof fn lemma_gf4096_sizes()
    ensures
        exp2(12) == 0x1000,
        bitlen(0x1053) == 13,
{
    reveal_with_fuel(exp2, 15);
    lemma_bitlen_exact(0x1053, 13);
}

/// The powers `2^(2^k)` in `gf4096`.
proof fn gf4096_squares()
    ensures
        powmod(2, 0x1, 0x1053) == 0x2,
        powmod(2, 0x2, 0x1053) == 0x4,
        powmod(2, 0x4, 0x1053) == 0x10,
        powmod(2, 0x8, 0x1053) == 0x100,
        powmod(2, 0x10, 0x1053) == 0x530,
        powmod(2, 0x20, 0x1053) == 0x22f,
        powmod(2, 0x40, 0x1053) == 0xc6,
        powmod(2, 0x80, 0x1053) == 0x10b,
        powmod(2, 0x100, 0x1053) == 0x575,
        powmod(2, 0x200, 0x1053) == 0x26d,
        powmod(2, 0x400, 0x1053) == 0x91,
        powmod(2, 0x800, 0x1053) == 0x4d,
{
    lemma_gf4096_sizes();
    gf4096_products();
    lemma_first_power(0x1053, 12);
    lemma_powmod_add(2, 0x1, 0x1, 0x1053);
    lemma_mulbv(0x2, 0x2, 0x1053, 12u32);
    lemma_powmod_add(2, 0x2, 0x2, 0x1053);
    lemma_mulbv(0x4, 0x4, 0x1053, 12u32);
    lemma_powmod_add(2, 0x4, 0x4, 0x1053);
    lemma_mulbv(0x10, 0x10, 0x1053, 12u32);
    lemma_powmod_add(2, 0x8, 0x8, 0x1053);
    lemma_mulbv(0x100, 0x100, 0x1053, 12u32);
    lemma_powmod_add(2, 0x10, 0x10, 0x1053);
    lemma_mulbv(0x530, 0x530, 0x1053, 12u32);
    lemma_powmod_add(2, 0x20, 0x20, 0x1053);
    lemma_mulbv(0x22f, 0x22f, 0x1053, 12u32);
    lemma_powmod_add(2, 0x40, 0x40, 0x1053);
    lemma_mulbv(0xc6, 0xc6, 0x1053, 12u32);
    lemma_powmod_add(2, 0x80, 0x80, 0x1053);
    lemma_mulbv(0x10b, 0x10b, 0x1053, 12u32);
    lemma_powmod_add(2, 0x100, 0x100, 0x1053);
    lemma_mulbv(0x575, 0x575, 0x1053, 12u32);
    lemma_powmod_add(2, 0x200, 0x200, 0x1053);
    lemma_mulbv(0x26d, 0x26d, 0x1053, 12u32);
    lemma_powmod_add(2, 0x400, 0x400, 0x1053);
    lemma_mulbv(0x91, 0x91, 0x1053, 12u32);
}

/// `2^0xfff` in `gf4096`.
proof fn gf4096_power_fff()
    ensures
        powmod(2, 0xfff, 0x1053) == 0x1,
{
    lemma_gf4096_sizes();
    gf4096_products();
    gf4096_squares();
    lemma_powmod_add(2, 0x1, 0x2, 0x1053);
    lemma_mulbv(0x2, 0x4, 0x1053, 12u32);
    lemma_powmod_add(2, 0x3, 0x4, 0x1053);
    lemma_mulbv(0x8, 0x10, 0x1053, 12u32);
    lemma_powmod_add(2, 0x7, 0x8, 0x1053);
    lemma_mulbv(0x80, 0x100, 0x1053, 12u32);
    lemma_powmod_add(2, 0xf, 0x10, 0x1053);
    lemma_mulbv(0x298, 0x530, 0x1053, 12u32);
    lemma_powmod_add(2, 0x1f, 0x20, 0x1053);
    lemma_mulbv(0x93e, 0x22f, 0x1053, 12u32);
    lemma_powmod_add(2, 0x3f, 0x40, 0x1053);
    lemma_mulbv(0x63, 0xc6, 0x1053, 12u32);
    lemma_powmod_add(2, 0x7f, 0x80, 0x1053);
    lemma_mulbv(0x8ac, 0x10b, 0x1053, 12u32);
    lemma_powmod_add(2, 0xff, 0x100, 0x1053);
    lemma_mulbv(0xa93, 0x575, 0x1053, 12u32);
    lemma_powmod_add(2, 0x1ff, 0x200, 0x1053);
    lemma_mulbv(0x91f, 0x26d, 0x1053, 12u32);
    lemma_powmod_add(2, 0x3ff, 0x400, 0x1053);
    lemma_mulbv(0x861, 0x91, 0x1053, 12u32);
    lemma_powmod_add(2, 0x7ff, 0x800, 0x1053);
    lemma_mulbv(0x80f, 0x4d, 0x1053, 12u32);
}

/// `2^0x555` in `gf4096`.
proof fn gf4096_power_555()
    ensures
        powmod(2, 0x555, 0x1053) == 0x46,
{
    lemma_gf4096_sizes();
    gf4096_products();
    gf4096_squares();
    lemma_powmod_add(2, 0x1, 0x4, 0x1053);
    lemma_mulbv(0x2, 0x10, 0x1053, 12u32);
    lemma_powmod_add(2, 0x5, 0x10, 0x1053);
    lemma_mulbv(0x20, 0x530, 0x1053, 12u32);
    lemma_powmod_add(2, 0x15, 0x40, 0x1053);
    lemma_mulbv(0x43e, 0xc6, 0x1053, 12u32);
    lemma_powmod_add(2, 0x55, 0x100, 0x1053);
    lemma_mulbv(0x754, 0x575, 0x1053, 12u32);
    lemma_powmod_add(2, 0x155, 0x400, 0x1053);
    lemma_mulbv(0x1b2, 0x91, 0x1053, 12u32);
}

/// `2^0x333` in `gf4096`.
proof fn gf4096_power_333()
    ensures
        powmod(2, 0x333, 0x1053) == 0xc8e,
{
    lemma_gf4096_sizes();
    gf4096_products();
    gf4096_squares();
    lemma_powmod_add(2, 0x1, 0x2, 0x1053);
    lemma_mulbv(0x2, 0x4, 0x1053, 12u32);
    lemma_powmod_add(2, 0x3, 0x10, 0x1053);
    lemma_mulbv(0x8, 0x530, 0x1053, 12u32);
    lemma_powmod_add(2, 0x13, 0x20, 0x1053);
    lemma_mulbv(0x926, 0x22f, 0x1053, 12u32);
    lemma_powmod_add(2, 0x33, 0x100, 0x1053);
    lemma_mulbv(0x31e, 0x575, 0x1053, 12u32);
    lemma_powmod_add(2, 0x133, 0x200, 0x1053);
    lemma_mulbv(0xd02, 0x26d, 0x1053, 12u32);
}

/// `2^0x249` in `gf4096`.
proof fn gf4096_power_249()
    ensures
        powmod(2, 0x249, 0x1053) == 0x3a9,
{
    lemma_gf4096_sizes();
    gf4096_products();
    gf4096_squares();
    lemma_powmod_add(2, 0x1, 0x8, 0x1053);
    lemma_mulbv(0x2, 0x100, 0x1053, 12u32);
    lemma_powmod_add(2, 0x9, 0x40, 0x1053);
    lemma_mulbv(0x200, 0xc6, 0x1053, 12u32);
    lemma_powmod_add(2, 0x49, 0x200, 0x1053);
    lemma_mulbv(0xba8, 0x26d, 0x1053, 12u32);
}

/// `2^0x13b` in `gf4096`.
proof fn gf4096_power_13b()
    ensures
        powmod(2, 0x13b, 0x1053) == 0xa85,
{
    lemma_gf4096_sizes();
    gf4096_products();
    gf4096_squares();
    lemma_powmod_add(2, 0x1, 0x2, 0x1053);
    lemma_mulbv(0x2, 0x4, 0x1053, 12u32);
    lemma_powmod_add(2, 0x3, 0x8, 0x1053);
    lemma_mulbv(0x8, 0x100, 0x1053, 12u32);
    lemma_powmod_add(2, 0xb, 0x10, 0x1053);
    lemma_mulbv(0x800, 0x530, 0x1053, 12u32);
    lemma_powmod_add(2, 0x1b, 0x20, 0x1053);
    lemma_mulbv(0xab0, 0x22f, 0x1053, 12u32);
    lemma_powmod_add(2, 0x3b, 0x100, 0x1053);
    lemma_mulbv(0x103, 0x575, 0x1053, 12u32);
}

/// `2` has order `2^12 - 1` in `gf4096`: `2^0xfff == 1`, and no smaller positive
/// power of `2` is one.
pub proof fn lemma_gf4096_generator()
    ensures
        powmod(2, 0xfff, 0x1053) == 1,
        forall|k: nat| 0 < k < 0xfff ==> #[trigger] powmod(2, k, 0x1053) != 1,
{
    lemma_gf4096_sizes();
    lemma_primes();
    gf4096_power_fff();
    gf4096_power_555();
    gf4096_power_333();
    gf4096_power_249();
    gf4096_power_13b();
    let s0: Seq<nat> = Seq::empty();
    assert(prod(s0) == 1);
    let s1: Seq<nat> = s0.push(3nat);
    assert(s1.drop_last() =~= s0);
    assert(s1.last() == 3);
    assert(prod(s1) == 3);
    let s2: Seq<nat> = s1.push(3nat);
    assert(s2.drop_last() =~= s1);
    assert(s2.last() == 3);
    assert(prod(s2) == 9);
    let s3: Seq<nat> = s2.push(5nat);
    assert(s3.drop_last() =~= s2);
    assert(s3.last() == 5);
    assert(prod(s3) == 45);
    let s4: Seq<nat> = s3.push(7nat);
    assert(s4.drop_last() =~= s3);
    assert(s4.last() == 7);
    assert(prod(s4) == 315);
    let s5: Seq<nat> = s4.push(13nat);
    assert(s5.drop_last() =~= s4);
    assert(s5.last() == 13);
    assert(prod(s5) == 4095);
    let ps = s5;
    assert forall|i: int| 0 <= i < ps.len() implies is_prime(#[trigger] ps[i]) by {
    }
    assert forall|i: int| 0 <= i < ps.len() implies #[trigger] powmod(2, (0xfff as nat) / ps[i], 0x1053) != 1 by {
        if i == 0 {
            assert(ps[i] == 3);
            assert((0xfff as nat) / 3nat == 0x555);
        } else if i == 1 {
            assert(ps[i] == 3);
            assert((0xfff as nat) / 3nat == 0x555);
        } else if i == 2 {
            assert(ps[i] == 5);
            assert((0xfff as nat) / 5nat == 0x333);
        } else if i == 3 {
            assert(ps[i] == 7);
            assert((0xfff as nat) / 7nat == 0x249);
        } else if i == 4 {
            assert(ps[i] == 13);
            assert((0xfff as nat) / 13nat == 0x13b);
        }
    }
    lemma_order(2, 0x1053, 12, 0xfff, ps);
}

/// Every non-zero element of `gf4096` is a power `2^k` with `k < 2^12 - 1`,
/// the powers below `2^12 - 1` are non-zero and distinct, and every non-zero
/// element `b` satisfies `b^(2^12 - 1) == 1`.
pub proof fn lemma_gf4096_field()
    ensures
        field_inverts(0x1053, 12),
        forall|x: nat| x < 0xfff ==> #[trigger] powmod(2, x, 0x1053) != 0,
        forall|x: nat, y: nat| x < 0xfff && y < 0xfff && x != y
            ==> #[trigger] powmod(2, x, 0x1053) != #[trigger] powmod(2, y, 0x1053),
{
    lemma_gf4096_sizes();
    lemma_gf4096_generator();
    lemma_generator_covers(2, 0x1053, 12);
}

/// Products of powers of `2` in `gf2p16`, evaluated on machine words.
proof fn gf2p16_products() by (bit_vector)
    ensures
        mulbv(0x2, 0x2, 0x1002d, 16u32) == 0x4,
        mulbv(0x4, 0x4, 0x1002d, 16u32) == 0x10,
        mulbv(0x10, 0x10, 0x1002d, 16u32) == 0x100,
        mulbv(0x100, 0x100, 0x1002d, 16u32) == 0x2d,
        mulbv(0x2d, 0x2d, 0x1002d, 16u32) == 0x451,
        mulbv(0x451, 0x451, 0x1002d, 16u32) == 0x13d1,
        mulbv(0x13d1, 0x13d1, 0x1002d, 16u32) == 0x7c98,
        mulbv(0x7c98, 0x7c98, 0x1002d, 16u32) == 0x18a,
        mulbv(0x18a, 0x18a, 0x1002d, 16u32) == 0x4069,
        mulbv(0x4069, 0x4069, 0x1002d, 16u32) == 0xc41b,
        mulbv(0xc41b, 0xc41b, 0x1002d, 16u32) == 0x92d0,
        mulbv(0x92d0, 0x92d0, 0x1002d, 16u32) == 0x3dab,
        mulbv(0x3dab, 0x3dab, 0x1002d, 16u32) == 0xd4f8,
        mulbv(0xd4f8, 0xd4f8, 0x1002d, 16u32) == 0xebd5,
        mulbv(0xebd5, 0xebd5, 0x1002d, 16u32) == 0x7f8d,
        mulbv(0x2, 0x4, 0x1002d, 16u32) == 0x8,
        mulbv(0x8, 0x10, 0x1002d, 16u32) == 0x80,
        mulbv(0x80, 0x100, 0x1002d, 16u32) == 0x8000,
        mulbv(0x8000, 0x2d, 0x1002d, 16u32) == 0x823e,
        mulbv(0x823e, 0x451, 0x1002d, 16u32) == 0x89fe,
        mulbv(0x89fe, 0x13d1, 0x1002d, 16u32) == 0x3e4c,
        mulbv(0x3e4c, 0x7c98, 0x1002d, 16u32) == 0xc5,
        mulbv(0xc5, 0x18a, 0x1002d, 16u32) == 0xa022,
        mulbv(0xa022, 0x4069, 0x1002d, 16u32) == 0xe21b,
        mulbv(0xe21b, 0xc41b, 0x1002d, 16u32) == 0x4968,
        mulbv(0x4968, 0x92d0, 0x1002d, 16u32) == 0x9ec3,
        mulbv(0x9ec3, 0x3dab, 0x1002d, 16u32) == 0x6a7c,
        mulbv(0x6a7c, 0xd4f8, 0x1002d, 16u32) == 0xf5fc,
        mulbv(0xf5fc, 0xebd5, 0x1002d, 16u32) == 0xbfd0,
        mulbv(0xbfd0, 0x7f8d, 0x1002d, 16u32) == 0x1,
        mulbv(0x2, 0x10, 0x1002d, 16u32) == 0x20,
        mulbv(0x20, 0x2d, 0x1002d, 16u32) == 0x5a0,
        mulbv(0x5a0, 0x13d1, 0x1002d, 16u32) == 0xef3,
        mulbv(0xef3, 0x18a, 0x1002d, 16u32) == 0xe1bb,
        mulbv(0xe1bb, 0xc41b, 0x1002d, 16u32) == 0xc016,
        mulbv(0xc016, 0x3dab, 0x1002d, 16u32) == 0xfa3c,
        mulbv(0xfa3c, 0xebd5, 0x1002d, 16u32) == 0xacca,
        mulbv(0x8, 0x2d, 0x1002d, 16u32) == 0x168,
        mulbv(0x168, 0x451, 0x1002d, 16u32) == 0xed71,
        mulbv(0xed71, 0x18a, 0x1002d, 16u32) == 0x6d4b,
        mulbv(0x6d4b, 0x4069, 0x1002d, 16u32) == 0xf847,
        mulbv(0xf847, 0x3dab, 0x1002d, 16u32) == 0x71e1,
        mulbv(0x71e1, 0xd4f8, 0x1002d, 16u32) == 0x86fa,
        mulbv(0x8000, 0x18a, 0x1002d, 16u32) == 0x1d59,
        mulbv(0x1d59, 0x4069, 0x1002d, 16u32) == 0x803b,
        mulbv(0x803b, 0xc41b, 0x1002d, 16u32) == 0x96f5,
        mulbv(0x96f5, 0x92d0, 0x1002d, 16u32) == 0xacb4,
{
}

/// The sizes of `gf2p16`.
pub proof fn lemma_gf2p16_sizes()
    ensures
        exp2(16) == 0x10000,
        bitlen(0x1002d) == 17,
{
    reveal_with_fuel(exp2, 19);
    lemma_bitlen_exact(0x1002d, 17);
}

/// The powers `2^(2^k)` in `gf2p16`.
proof fn gf2p16_squares()
    ensures
        powmod(2, 0x1, 0x1002d) == 0x2,
        powmod(2, 0x2, 0x1002d) == 0x4,
        powmod(2, 0x4, 0x1002d) == 0x10,
        powmod(2, 0x8, 0x1002d) == 0x100,
        powmod(2, 0x10, 0x1002d) == 0x2d,
        powmod(2, 0x20, 0x1002d) == 0x451,
        powmod(2, 0x40, 0x1002d) == 0x13d1,
        powmod(2, 0x80, 0x1002d) == 0x7c98,
        powmod(2, 0x100, 0x1002d) == 0x18a,
        powmod(2, 0x200, 0x1002d) == 0x4069,
        powmod(2, 0x400, 0x1002d) == 0xc41b,
        powmod(2, 0x800, 0x1002d) == 0x92d0,
        powmod(2, 0x1000, 0x1002d) == 0x3dab,
        powmod(2, 0x2000, 0x1002d) == 0xd4f8,
        powmod(2, 0x4000, 0x1002d) == 0xebd5,
        powmod(2, 0x8000, 0x1002d) == 0x7f8d,
{
    lemma_gf2p16_sizes();
    gf2p16_products();
    lemma_first_power(0x1002d, 16);
    lemma_powmod_add(2, 0x1, 0x1, 0x1002d);
    lemma_mulbv(0x2, 0x2, 0x1002d, 16u32);
    lemma_powmod_add(2, 0x2, 0x2, 0x1002d);
    lemma_mulbv(0x4, 0x4, 0x1002d, 16u32);
    lemma_powmod_add(2, 0x4, 0x4, 0x1002d);
    lemma_mulbv(0x10, 0x10, 0x1002d, 16u32);
    lemma_powmod_add(2, 0x8, 0x8, 0x1002d);
    lemma_mulbv(0x100, 0x100, 0x1002d, 16u32);
    lemma_powmod_add(2, 0x10, 0x10, 0x1002d);
    lemma_mulbv(0x2d, 0x2d, 0x1002d, 16u32);
    lemma_powmod_add(2, 0x20, 0x20, 0x1002d);
    lemma_mulbv(0x451, 0x451, 0x1002d, 16u32);
    lemma_powmod_add(2, 0x40, 0x40, 0x1002d);
    lemma_mulbv(0x13d1, 0x13d1, 0x1002d, 16u32);
    lemma_powmod_add(2, 0x80, 0x80, 0x1002d);
    lemma_mulbv(0x7c98, 0x7c98, 0x1002d, 16u32);
    lemma_powmod_add(2, 0x100, 0x100, 0x1002d);
    lemma_mulbv(0x18a, 0x18a, 0x1002d, 16u32);
    lemma_powmod_add(2, 0x200, 0x200, 0x1002d);
    lemma_mulbv(0x4069, 0x4069, 0x1002d, 16u32);
    lemma_powmod_add(2, 0x400, 0x400, 0x1002d);
    lemma_mulbv(0xc41b, 0xc41b, 0x1002d, 16u32);
    lemma_powmod_add(2, 0x800, 0x800, 0x1002d);
    lemma_mulbv(0x92d0, 0x92d0, 0x1002d, 16u32);
    lemma_powmod_add(2, 0x1000, 0x1000, 0x1002d);
    lemma_mulbv(0x3dab, 0x3dab, 0x1002d, 16u32);
    lemma_powmod_add(2, 0x2000, 0x2000, 0x1002d);
    lemma_mulbv(0xd4f8, 0xd4f8, 0x1002d, 16u32);
    lemma_powmod_add(2, 0x4000, 0x4000, 0x1002d);
    lemma_mulbv(0xebd5, 0xebd5, 0x1002d, 16u32);
}

/// `2^0xffff` in `gf2p16`.
proof fn gf2p16_power_ffff()
    ensures
        powmod(2, 0xffff, 0x1002d) == 0x1,
{
    lemma_gf2p16_sizes();
    gf2p16_products();
    gf2p16_squares();
    lemma_powmod_add(2, 0x1, 0x2, 0x1002d);
    lemma_mulbv(0x2, 0x4, 0x1002d, 16u32);
    lemma_powmod_add(2, 0x3, 0x4, 0x1002d);
    lemma_mulbv(0x8, 0x10, 0x1002d, 16u32);
    lemma_powmod_add(2, 0x7, 0x8, 0x1002d);
    lemma_mulbv(0x80, 0x100, 0x1002d, 16u32);
    lemma_powmod_add(2, 0xf, 0x10, 0x1002d);
    lemma_mulbv(0x8000, 0x2d, 0x1002d, 16u32);
    lemma_powmod_add(2, 0x1f, 0x20, 0x1002d);
    lemma_mulbv(0x823e, 0x451, 0x1002d, 16u32);
    lemma_powmod_add(2, 0x3f, 0x40, 0x1002d);
    lemma_mulbv(0x89fe, 0x13d1, 0x1002d, 16u32);
    lemma_powmod_add(2, 0x7f, 0x80, 0x1002d);
    lemma_mulbv(0x3e4c, 0x7c98, 0x1002d, 16u32);
    lemma_powmod_add(2, 0xff, 0x100, 0x1002d);
    lemma_mulbv(0xc5, 0x18a, 0x1002d, 16u32);
    lemma_powmod_add(2, 0x1ff, 0x200, 0x1002d);
    lemma_mulbv(0xa022, 0x4069, 0x1002d, 16u32);
    lemma_powmod_add(2, 0x3ff, 0x400, 0x1002d);
    lemma_mulbv(0xe21b, 0xc41b, 0x1002d, 16u32);
    lemma_powmod_add(2, 0x7ff, 0x800, 0x1002d);
    lemma_mulbv(0x4968, 0x92d0, 0x1002d, 16u32);
    lemma_powmod_add(2, 0xfff, 0x1000, 0x1002d);
    lemma_mulbv(0x9ec3, 0x3dab, 0x1002d, 16u32);
    lemma_powmod_add(2, 0x1fff, 0x2000, 0x1002d);
    lemma_mulbv(0x6a7c, 0xd4f8, 0x1002d, 16u32);
    lemma_powmod_add(2, 0x3fff, 0x4000, 0x1002d);
    lemma_mulbv(0xf5fc, 0xebd5, 0x1002d, 16u32);
    lemma_powmod_add(2, 0x7fff, 0x8000, 0x1002d);
    lemma_mulbv(0xbfd0, 0x7f8d, 0x1002d, 16u32);
}

/// `2^0x5555` in `gf2p16`.
proof fn gf2p16_power_5555()
    ensures
        powmod(2, 0x5555, 0x1002d) == 0xacca,
{
    lemma_gf2p16_sizes();
    gf2p16_products();
    gf2p16_squares();
    lemma_powmod_add(2, 0x1, 0x4, 0x1002d);
    lemma_mulbv(0x2, 0x10, 0x1002d, 16u32);
    lemma_powmod_add(2, 0x5, 0x10, 0x1002d);
    lemma_mulbv(0x20, 0x2d, 0x1002d, 16u32);
    lemma_powmod_add(2, 0x15, 0x40, 0x1002d);
    lemma_mulbv(0x5a0, 0x13d1, 0x1002d, 16u32);
    lemma_powmod_add(2, 0x55, 0x100, 0x1002d);
    lemma_mulbv(0xef3, 0x18a, 0x1002d, 16u32);
    lemma_powmod_add(2, 0x155, 0x400, 0x1002d);
    lemma_mulbv(0xe1bb, 0xc41b, 0x1002d, 16u32);
    lemma_powmod_add(2, 0x555, 0x1000, 0x1002d);
    lemma_mulbv(0xc016, 0x3dab, 0x1002d, 16u32);
    lemma_powmod_add(2, 0x1555, 0x4000, 0x1002d);
    lemma_mulbv(0xfa3c, 0xebd5, 0x1002d, 16u32);
}

/// `2^0x3333` in `gf2p16`.
proof fn gf2p16_power_3333()
    ensures
        powmod(2, 0x3333, 0x1002d) == 0x86fa,
{
    lemma_gf2p16_sizes();
    gf2p16_products();
    gf2p16_squares();
    lemma_powmod_add(2, 0x1, 0x2, 0x1002d);
    lemma_mulbv(0x2, 0x4, 0x1002d, 16u32);
    lemma_powmod_add(2, 0x3, 0x10, 0x1002d);
    lemma_mulbv(0x8, 0x2d, 0x1002d, 16u32);
    lemma_powmod_add(2, 0x13, 0x20, 0x1002d);
    lemma_mulbv(0x168, 0x451, 0x1002d, 16u32);
    lemma_powmod_add(2, 0x33, 0x100, 0x1002d);
    lemma_mulbv(0xed71, 0x18a, 0x1002d, 16u32);
    lemma_powmod_add(2, 0x133, 0x200, 0x1002d);
    lemma_mulbv(0x6d4b, 0x4069, 0x1002d, 16u32);
    lemma_powmod_add(2, 0x333, 0x1000, 0x1002d);
    lemma_mulbv(0xf847, 0x3dab, 0x1002d, 16u32);
    lemma_powmod_add(2, 0x1333, 0x2000, 0x1002d);
    lemma_mulbv(0x71e1, 0xd4f8, 0x1002d, 16u32);
}

/// `2^0xf0f` in `gf2p16`.
proof fn gf2p16_power_f0f()
    ensures
        powmod(2, 0xf0f, 0x1002d) == 0xacb4,
{
    lemma_gf2p16_sizes();
    gf2p16_products();
    gf2p16_squares();
    lemma_powmod_add(2, 0x1, 0x2, 0x1002d);
    lemma_mulbv(0x2, 0x4, 0x1002d, 16u32);
    lemma_powmod_add(2, 0x3, 0x4, 0x1002d);
    lemma_mulbv(0x8, 0x10, 0x1002d, 16u32);
    lemma_powmod_add(2, 0x7, 0x8, 0x1002d);
    lemma_mulbv(0x80, 0x100, 0x1002d, 16u32);
    lemma_powmod_add(2, 0xf, 0x100, 0x1002d);
    lemma_mulbv(0x8000, 0x18a, 0x1002d, 16u32);
    lemma_powmod_add(2, 0x10f, 0x200, 0x1002d);
    lemma_mulbv(0x1d59, 0x4069, 0x1002d, 16u32);
    lemma_powmod_add(2, 0x30f, 0x400, 0x1002d);
    lemma_mulbv(0x803b, 0xc41b, 0x1002d, 16u32);
    lemma_powmod_add(2, 0x70f, 0x800, 0x1002d);
    lemma_mulbv(0x96f5, 0x92d0, 0x1002d, 16u32);
}

/// `2^0xff` in `gf2p16`.
proof fn gf2p16_power_ff()
    ensures
        powmod(2, 0xff, 0x1002d) == 0xc5,
{
    lemma_gf2p16_sizes();
    gf2p16_products();
    gf2p16_squares();
    lemma_powmod_add(2, 0x1, 0x2, 0x1002d);
    lemma_mulbv(0x2, 0x4, 0x1002d, 16u32);
    lemma_powmod_add(2, 0x3, 0x4, 0x1002d);
    lemma_mulbv(0x8, 0x10, 0x1002d, 16u32);
    lemma_powmod_add(2, 0x7, 0x8, 0x1002d);
    lemma_mulbv(0x80, 0x100, 0x1002d, 16u32);
    lemma_powmod_add(2, 0xf, 0x10, 0x1002d);
    lemma_mulbv(0x8000, 0x2d, 0x1002d, 16u32);
    lemma_powmod_add(2, 0x1f, 0x20, 0x1002d);
    lemma_mulbv(0x823e, 0x451, 0x1002d, 16u32);
    lemma_powmod_add(2, 0x3f, 0x40, 0x1002d);
    lemma_mulbv(0x89fe, 0x13d1, 0x1002d, 16u32);
    lemma_powmod_add(2, 0x7f, 0x80, 0x1002d);
    lemma_mulbv(0x3e4c, 0x7c98, 0x1002d, 16u32);
}

/// `2` has order `2^16 - 1` in `gf2p16`: `2^0xffff == 1`, and no smaller positive
/// power of `2` is one.
pub proof fn lemma_gf2p16_generator()
    ensures
        powmod(2, 0xffff, 0x1002d) == 1,
        forall|k: nat| 0 < k < 0xffff ==> #[trigger] powmod(2, k, 0x1002d) != 1,
{
    lemma_gf2p16_sizes();
    lemma_primes();
    gf2p16_power_ffff();
    gf2p16_power_5555();
    gf2p16_power_3333();
    gf2p16_power_f0f();
    gf2p16_power_ff();
    let s0: Seq<nat> = Seq::empty();
    assert(prod(s0) == 1);
    let s1: Seq<nat> = s0.push(3nat);
    assert(s1.drop_last() =~= s0);
    assert(s1.last() == 3);
    assert(prod(s1) == 3);
    let s2: Seq<nat> = s1.push(5nat);
    assert(s2.drop_last() =~= s1);
    assert(s2.last() == 5);
    assert(prod(s2) == 15);
    let s3: Seq<nat> = s2.push(17nat);
    assert(s3.drop_last() =~= s2);
    assert(s3.last() == 17);
    assert(prod(s3) == 255);
    let s4: Seq<nat> = s3.push(257nat);
    assert(s4.drop_last() =~= s3);
    assert(s4.last() == 257);
    assert(prod(s4) == 65535);
    let ps = s4;
    assert forall|i: int| 0 <= i < ps.len() implies is_prime(#[trigger] ps[i]) by {
    }
    assert forall|i: int| 0 <= i < ps.len() implies #[trigger] powmod(2, (0xffff as nat) / ps[i], 0x1002d) != 1 by {
        if i == 0 {
            assert(ps[i] == 3);
            assert((0xffff as nat) / 3nat == 0x5555);
        } else if i == 1 {
            assert(ps[i] == 5);
            assert((0xffff as nat) / 5nat == 0x3333);
        } else if i == 2 {
            assert(ps[i] == 17);
            assert((0xffff as nat) / 17nat == 0xf0f);
        } else if i == 3 {
            assert(ps[i] == 257);
            assert((0xffff as nat) / 257nat == 0xff);
        }
    }
    lemma_order(2, 0x1002d, 16, 0xffff, ps);
}

/// Every non-zero element of `gf2p16` is a power `2^k` with `k < 2^16 - 1`,
/// the powers below `2^16 - 1` are non-zero and distinct, and every non-zero
/// element `b` satisfies `b^(2^16 - 1) == 1`.
pub proof fn lemma_gf2p16_field()
    ensures
        field_inverts(0x1002d, 16),
        forall|x: nat| x < 0xffff ==> #[trigger] powmod(2, x, 0x1002d) != 0,
        forall|x: nat, y: nat| x < 0xffff && y < 0xffff && x != y
            ==> #[trigger] powmod(2, x, 0x1002d) != #[trigger] powmod(2, y, 0x1002d),
{
    lemma_gf2p16_sizes();
    lemma_gf2p16_generator();
    lemma_generator_covers(2, 0x1002d, 16);
}

/// Products of powers of `2` in `gf2p23`, evaluated on machine words.
proof fn gf2p23_products() by (bit_vector)
    ensures
        mulbv(0x2, 0x2, 0x800021, 23u32) == 0x4,
        mulbv(0x4, 0x4, 0x800021, 23u32) == 0x10,
        mulbv(0x10, 0x10, 0x800021, 23u32) == 0x100,
        mulbv(0x100, 0x100, 0x800021, 23u32) == 0x10000,
        mulbv(0x10000, 0x10000, 0x800021, 23u32) == 0x4200,
        mulbv(0x4200, 0x4200, 0x800021, 23u32) == 0x40420,
        mulbv(0x40420, 0x40420, 0x800021, 23u32) == 0x142400,
        mulbv(0x142400, 0x142400, 0x800021, 23u32) == 0x562108,
        mulbv(0x562108, 0x562108, 0x800021, 23u32) == 0x662840,
        mulbv(0x662840, 0x662840, 0x800021, 23u32) == 0x6d3842,
        mulbv(0x6d3842, 0x6d3842, 0x800021, 23u32) == 0x7cf204,
        mulbv(0x7cf204, 0x7cf204, 0x800021, 23u32) == 0x7ab4b0,
        mulbv(0x7ab4b0, 0x7ab4b0, 0x800021, 23u32) == 0x6bdd80,
        mulbv(0x6bdd80, 0x6bdd80, 0x800021, 23u32) == 0x689fa8,
        mulbv(0x689fa8, 0x689fa8, 0x800021, 23u32) == 0x6dd5c8,
        mulbv(0x6dd5c8, 0x6dd5c8, 0x800021, 23u32) == 0x2da7e8,
        mulbv(0x2da7e8, 0x2da7e8, 0x800021, 23u32) == 0x9a78a,
        mulbv(0x9a78a, 0x9a78a, 0x800021, 23u32) == 0x593cc,
        mulbv(0x593cc, 0x593cc, 0x800021, 23u32) == 0x12292,
        mulbv(0x12292, 0x12292, 0x800021, 23u32) == 0x4020c,
        mulbv(0x4020c, 0x4020c, 0x800021, 23u32) == 0x2050,
        mulbv(0x2050, 0x2050, 0x800021, 23u32) == 0x1008,
        mulbv(0x2, 0x4, 0x800021, 23u32) == 0x8,
        mulbv(0x8, 0x10, 0x800021, 23u32) == 0x80,
        mulbv(0x80, 0x100, 0x800021, 23u32) == 0x8000,
        mulbv(0x8000, 0x10000, 0x800021, 23u32) == 0x2100,
        mulbv(0x2100, 0x4200, 0x800021, 23u32) == 0x20210,
        mulbv(0x20210, 0x40420, 0x800021, 23u32) == 0xa1200,
        mulbv(0xa1200, 0x142400, 0x800021, 23u32) == 0x2b1084,
        mulbv(0x2b1084, 0x562108, 0x800021, 23u32) == 0x331420,
        mulbv(0x331420, 0x662840, 0x800021, 23u32) == 0x369c21,
        mulbv(0x369c21, 0x6d3842, 0x800021, 23u32) == 0x3e7902,
        mulbv(0x3e7902, 0x7cf204, 0x800021, 23u32) == 0x3d5a58,
        mulbv(0x3d5a58, 0x7ab4b0, 0x800021, 23u32) == 0x35eec0,
        mulbv(0x35eec0, 0x6bdd80, 0x800021, 23u32) == 0x344fd4,
        mulbv(0x344fd4, 0x689fa8, 0x800021, 23u32) == 0x36eae4,
        mulbv(0x36eae4, 0x6dd5c8, 0x800021, 23u32) == 0x16d3f4,
        mulbv(0x16d3f4, 0x2da7e8, 0x800021, 23u32) == 0x4d3c5,
        mulbv(0x4d3c5, 0x9a78a, 0x800021, 23u32) == 0x2c9e6,
        mulbv(0x2c9e6, 0x593cc, 0x800021, 23u32) == 0x9149,
        mulbv(0x9149, 0x12292, 0x800021, 23u32) == 0x20106,
        mulbv(0x20106, 0x4020c, 0x800021, 23u32) == 0x1028,
        mulbv(0x1028, 0x2050, 0x800021, 23u32) == 0x804,
        mulbv(0x804, 0x1008, 0x800021, 23u32) == 0x1,
        mulbv(0x2, 0x10000, 0x800021, 23u32) == 0x20000,
        mulbv(0x20000, 0x4200, 0x800021, 23u32) == 0x2008,
        mulbv(0x2008, 0x562108, 0x800021, 23u32) == 0x12ac6d,
        mulbv(0x12ac6d, 0x7cf204, 0x800021, 23u32) == 0x5798fc,
        mulbv(0x5798fc, 0x7ab4b0, 0x800021, 23u32) == 0x357267,
        mulbv(0x357267, 0x6bdd80, 0x800021, 23u32) == 0x3c2aa2,
        mulbv(0x3c2aa2, 0x6dd5c8, 0x800021, 23u32) == 0x284c65,
        mulbv(0x284c65, 0x9a78a, 0x800021, 23u32) == 0x7ed6fa,
        mulbv(0x8000, 0x4200, 0x800021, 23u32) == 0x802,
{
}

/// The sizes of `gf2p23`.
pub proof fn lemma_gf2p23_sizes()
    ensures
        exp2(23) == 0x800000,
        bitlen(0x800021) == 24,
{
    reveal_with_fuel(exp2, 26);
    lemma_bitlen_exact(0x800021, 24);
}

/// The powers `2^(2^k)` in `gf2p23`.
proof fn gf2p23_squares()
    ensures
        powmod(2, 0x1, 0x800021) == 0x2,
        powmod(2, 0x2, 0x800021) == 0x4,
        powmod(2, 0x4, 0x800021) == 0x10,
        powmod(2, 0x8, 0x800021) == 0x100,
        powmod(2, 0x10, 0x800021) == 0x10000,
        powmod(2, 0x20, 0x800021) == 0x4200,
        powmod(2, 0x40, 0x800021) == 0x40420,
        powmod(2, 0x80, 0x800021) == 0x142400,
        powmod(2, 0x100, 0x800021) == 0x562108,
        powmod(2, 0x200, 0x800021) == 0x662840,
        powmod(2, 0x400, 0x800021) == 0x6d3842,
        powmod(2, 0x800, 0x800021) == 0x7cf204,
        powmod(2, 0x1000, 0x800021) == 0x7ab4b0,
        powmod(2, 0x2000, 0x800021) == 0x6bdd80,
        powmod(2, 0x4000, 0x800021) == 0x689fa8,
        powmod(2, 0x8000, 0x800021) == 0x6dd5c8,
        powmod(2, 0x10000, 0x800021) == 0x2da7e8,
        powmod(2, 0x20000, 0x800021) == 0x9a78a,
        powmod(2, 0x40000, 0x800021) == 0x593cc,
        powmod(2, 0x80000, 0x800021) == 0x12292,
        powmod(2, 0x100000, 0x800021) == 0x4020c,
        powmod(2, 0x200000, 0x800021) == 0x2050,
        powmod(2, 0x400000, 0x800021) == 0x1008,
{
    lemma_gf2p23_sizes();
    gf2p23_products();
    lemma_first_power(0x800021, 23);
    lemma_powmod_add(2, 0x1, 0x1, 0x800021);
    lemma_mulbv(0x2, 0x2, 0x800021, 23u32);
    lemma_powmod_add(2, 0x2, 0x2, 0x800021);
    lemma_mulbv(0x4, 0x4, 0x800021, 23u32);
    lemma_powmod_add(2, 0x4, 0x4, 0x800021);
    lemma_mulbv(0x10, 0x10, 0x800021, 23u32);
    lemma_powmod_add(2, 0x8, 0x8, 0x800021);
    lemma_mulbv(0x100, 0x100, 0x800021, 23u32);
    lemma_powmod_add(2, 0x10, 0x10, 0x800021);
    lemma_mulbv(0x10000, 0x10000, 0x800021, 23u32);
    lemma_powmod_add(2, 0x20, 0x20, 0x800021);
    lemma_mulbv(0x4200, 0x4200, 0x800021, 23u32);
    lemma_powmod_add(2, 0x40, 0x40, 0x800021);
    lemma_mulbv(0x40420, 0x40420, 0x800021, 23u32);
    lemma_powmod_add(2, 0x80, 0x80, 0x800021);
    lemma_mulbv(0x142400, 0x142400, 0x800021, 23u32);
    lemma_powmod_add(2, 0x100, 0x100, 0x800021);
    lemma_mulbv(0x562108, 0x562108, 0x800021, 23u32);
    lemma_powmod_add(2, 0x200, 0x200, 0x800021);
    lemma_mulbv(0x662840, 0x662840, 0x800021, 23u32);
    lemma_powmod_add(2, 0x400, 0x400, 0x800021);
    lemma_mulbv(0x6d3842, 0x6d3842, 0x800021, 23u32);
    lemma_powmod_add(2, 0x800, 0x800, 0x800021);
    lemma_mulbv(0x7cf204, 0x7cf204, 0x800021, 23u32);
    lemma_powmod_add(2, 0x1000, 0x1000, 0x800021);
    lemma_mulbv(0x7ab4b0, 0x7ab4b0, 0x800021, 23u32);
    lemma_powmod_add(2, 0x2000, 0x2000, 0x800021);
    lemma_mulbv(0x6bdd80, 0x6bdd80, 0x800021, 23u32);
    lemma_powmod_add(2, 0x4000, 0x4000, 0x800021);
    lemma_mulbv(0x689fa8, 0x689fa8, 0x800021, 23u32);
    lemma_powmod_add(2, 0x8000, 0x8000, 0x800021);
    lemma_mulbv(0x6dd5c8, 0x6dd5c8, 0x800021, 23u32);
    lemma_powmod_add(2, 0x10000, 0x10000, 0x800021);
    lemma_mulbv(0x2da7e8, 0x2da7e8, 0x800021, 23u32);
    lemma_powmod_add(2, 0x20000, 0x20000, 0x800021);
    lemma_mulbv(0x9a78a, 0x9a78a, 0x800021, 23u32);
    lemma_powmod_add(2, 0x40000, 0x40000, 0x800021);
    lemma_mulbv(0x593cc, 0x593cc, 0x800021, 23u32);
    lemma_powmod_add(2, 0x80000, 0x80000, 0x800021);
    lemma_mulbv(0x12292, 0x12292, 0x800021, 23u32);
    lemma_powmod_add(2, 0x100000, 0x100000, 0x800021);
    lemma_mulbv(0x4020c, 0x4020c, 0x800021, 23u32);
    lemma_powmod_add(2, 0x200000, 0x200000, 0x800021);
    lemma_mulbv(0x2050, 0x2050, 0x800021, 23u32);
}

/// `2^0x7fffff` in `gf2p23`.
proof fn gf2p23_power_7fffff()
    ensures
        powmod(2, 0x7fffff, 0x800021) == 0x1,
{
    lemma_gf2p23_sizes();
    gf2p23_products();
    gf2p23_squares();
    lemma_powmod_add(2, 0x1, 0x2, 0x800021);
    lemma_mulbv(0x2, 0x4, 0x800021, 23u32);
    lemma_powmod_add(2, 0x3, 0x4, 0x800021);
    lemma_mulbv(0x8, 0x10, 0x800021, 23u32);
    lemma_powmod_add(2, 0x7, 0x8, 0x800021);
    lemma_mulbv(0x80, 0x100, 0x800021, 23u32);
    lemma_powmod_add(2, 0xf, 0x10, 0x800021);
    lemma_mulbv(0x8000, 0x10000, 0x800021, 23u32);
    lemma_powmod_add(2, 0x1f, 0x20, 0x800021);
    lemma_mulbv(0x2100, 0x4200, 0x800021, 23u32);
    lemma_powmod_add(2, 0x3f, 0x40, 0x800021);
    lemma_mulbv(0x20210, 0x40420, 0x800021, 23u32);
    lemma_powmod_add(2, 0x7f, 0x80, 0x800021);
    lemma_mulbv(0xa1200, 0x142400, 0x800021, 23u32);
    lemma_powmod_add(2, 0xff, 0x100, 0x800021);
    lemma_mulbv(0x2b1084, 0x562108, 0x800021, 23u32);
    lemma_powmod_add(2, 0x1ff, 0x200, 0x800021);
    lemma_mulbv(0x331420, 0x662840, 0x800021, 23u32);
    lemma_powmod_add(2, 0x3ff, 0x400, 0x800021);
    lemma_mulbv(0x369c21, 0x6d3842, 0x800021, 23u32);
    lemma_powmod_add(2, 0x7ff, 0x800, 0x800021);
    lemma_mulbv(0x3e7902, 0x7cf204, 0x800021, 23u32);
    lemma_powmod_add(2, 0xfff, 0x1000, 0x800021);
    lemma_mulbv(0x3d5a58, 0x7ab4b0, 0x800021, 23u32);
    lemma_powmod_add(2, 0x1fff, 0x2000, 0x800021);
    lemma_mulbv(0x35eec0, 0x6bdd80, 0x800021, 23u32);
    lemma_powmod_add(2, 0x3fff, 0x4000, 0x800021);
    lemma_mulbv(0x344fd4, 0x689fa8, 0x800021, 23u32);
    lemma_powmod_add(2, 0x7fff, 0x8000, 0x800021);
    lemma_mulbv(0x36eae4, 0x6dd5c8, 0x800021, 23u32);
    lemma_powmod_add(2, 0xffff, 0x10000, 0x800021);
    lemma_mulbv(0x16d3f4, 0x2da7e8, 0x800021, 23u32);
    lemma_powmod_add(2, 0x1ffff, 0x20000, 0x800021);
    lemma_mulbv(0x4d3c5, 0x9a78a, 0x800021, 23u32);
    lemma_powmod_add(2, 0x3ffff, 0x40000, 0x800021);
    lemma_mulbv(0x2c9e6, 0x593cc, 0x800021, 23u32);
    lemma_powmod_add(2, 0x7ffff, 0x80000, 0x800021);
    lemma_mulbv(0x9149, 0x12292, 0x800021, 23u32);
    lemma_powmod_add(2, 0xfffff, 0x100000, 0x800021);
    lemma_mulbv(0x20106, 0x4020c, 0x800021, 23u32);
    lemma_powmod_add(2, 0x1fffff, 0x200000, 0x800021);
    lemma_mulbv(0x1028, 0x2050, 0x800021, 23u32);
    lemma_powmod_add(2, 0x3fffff, 0x400000, 0x800021);
    lemma_mulbv(0x804, 0x1008, 0x800021, 23u32);
}

/// `2^0x2b931` in `gf2p23`.
proof fn gf2p23_power_2b931()
    ensures
        powmod(2, 0x2b931, 0x800021) == 0x7ed6fa,
{
    lemma_gf2p23_sizes();
    gf2p23_products();
    gf2p23_squares();
    lemma_powmod_add(2, 0x1, 0x10, 0x800021);
    lemma_mulbv(0x2, 0x10000, 0x800021, 23u32);
    lemma_powmod_add(2, 0x11, 0x20, 0x800021);
    lemma_mulbv(0x20000, 0x4200, 0x800021, 23u32);
    lemma_powmod_add(2, 0x31, 0x100, 0x800021);
    lemma_mulbv(0x2008, 0x562108, 0x800021, 23u32);
    lemma_powmod_add(2, 0x131, 0x800, 0x800021);
    lemma_mulbv(0x12ac6d, 0x7cf204, 0x800021, 23u32);
    lemma_powmod_add(2, 0x931, 0x1000, 0x800021);
    lemma_mulbv(0x5798fc, 0x7ab4b0, 0x800021, 23u32);
    lemma_powmod_add(2, 0x1931, 0x2000, 0x800021);
    lemma_mulbv(0x357267, 0x6bdd80, 0x800021, 23u32);
    lemma_powmod_add(2, 0x3931, 0x8000, 0x800021);
    lemma_mulbv(0x3c2aa2, 0x6dd5c8, 0x800021, 23u32);
    lemma_powmod_add(2, 0xb931, 0x20000, 0x800021);
    lemma_mulbv(0x284c65, 0x9a78a, 0x800021, 23u32);
}

/// `2^0x2f` in `gf2p23`.
proof fn gf2p23_power_2f()
    ensures
        powmod(2, 0x2f, 0x800021) == 0x802,
{
    lemma_gf2p23_sizes();
    gf2p23_products();
    gf2p23_squares();
    lemma_powmod_add(2, 0x1, 0x2, 0x800021);
    lemma_mulbv(0x2, 0x4, 0x800021, 23u32);
    lemma_powmod_add(2, 0x3, 0x4, 0x800021);
    lemma_mulbv(0x8, 0x10, 0x800021, 23u32);
    lemma_powmod_add(2, 0x7, 0x8, 0x800021);
    lemma_mulbv(0x80, 0x100, 0x800021, 23u32);
    lemma_powmod_add(2, 0xf, 0x20, 0x800021);
    lemma_mulbv(0x8000, 0x4200, 0x800021, 23u32);
}

/// `2` has order `2^23 - 1` in `gf2p23`: `2^0x7fffff == 1`, and no smaller positive
/// power of `2` is one.
pub proof fn lemma_gf2p23_generator()
    ensures
        powmod(2, 0x7fffff, 0x800021) == 1,
        forall|k: nat| 0 < k < 0x7fffff ==> #[trigger] powmod(2, k, 0x800021) != 1,
{
    lemma_gf2p23_sizes();
    lemma_primes();
    gf2p23_power_7fffff();
    gf2p23_power_2b931();
    gf2p23_power_2f();
    let s0: Seq<nat> = Seq::empty();
    assert(prod(s0) == 1);
    let s1: Seq<nat> = s0.push(47nat);
    assert(s1.drop_last() =~= s0);
    assert(s1.last() == 47);
    assert(prod(s1) == 47);
    let s2: Seq<nat> = s1.push(178481nat);
    assert(s2.drop_last() =~= s1);
    assert(s2.last() == 178481);
    assert(prod(s2) == 8388607);
    let ps = s2;
    assert forall|i: int| 0 <= i < ps.len() implies is_prime(#[trigger] ps[i]) by {
    }
    assert forall|i: int| 0 <= i < ps.len() implies #[trigger] powmod(2, (0x7fffff as nat) / ps[i], 0x800021) != 1 by {
        if i == 0 {
            assert(ps[i] == 47);
            assert((0x7fffff as nat) / 47nat == 0x2b931);
        } else if i == 1 {
            assert(ps[i] == 178481);
            assert((0x7fffff as nat) / 178481nat == 0x2f);
        }
    }
    lemma_order(2, 0x800021, 23, 0x7fffff, ps);
}

/// Every non-zero element of `gf2p23` is a power `2^k` with `k < 2^23 - 1`,
/// the powers below `2^23 - 1` are non-zero and distinct, and every non-zero
/// element `b` satisfies `b^(2^23 - 1) == 1`.
pub proof fn lemma_gf2p23_field()
    ensures
        field_inverts(0x800021, 23),
        forall|x: nat| x < 0x7fffff ==> #[trigger] powmod(2, x, 0x800021) != 0,
        forall|x: nat, y: nat| x < 0x7fffff && y < 0x7fffff && x != y
            ==> #[trigger] powmod(2, x, 0x800021) != #[trigger] powmod(2, y, 0x800021),
{
    lemma_gf2p23_sizes();
    lemma_gf2p23_generator();
    lemma_generator_covers(2, 0x800021, 23);
}

/// Products of powers of `2` in `gf2p32`, evaluated on machine words.
proof fn gf2p32_products() by (bit_vector)
    ensures
        mulbv(0x2, 0x2, 0x1000000af, 32u32) == 0x4,
        mulbv(0x4, 0x4, 0x1000000af, 32u32) == 0x10,
        mulbv(0x10, 0x10, 0x1000000af, 32u32) == 0x100,
        mulbv(0x100, 0x100, 0x1000000af, 32u32) == 0x10000,
        mulbv(0x10000, 0x10000, 0x1000000af, 32u32) == 0xaf,
        mulbv(0xaf, 0xaf, 0x1000000af, 32u32) == 0x4455,
        mulbv(0x4455, 0x4455, 0x1000000af, 32u32) == 0x10101111,
        mulbv(0x10101111, 0x10101111, 0x1000000af, 32u32) == 0xae01ae01,
        mulbv(0xae01ae01, 0xae01ae01, 0x1000000af, 32u32) == 0x1bd81099,
        mulbv(0x1bd81099, 0x1bd81099, 0x1000000af, 32u32) == 0x87f2f581,
        mulbv(0x87f2f581, 0x87f2f581, 0x1000000af, 32u32) == 0x9dd170d4,
        mulbv(0x9dd170d4, 0x9dd170d4, 0x1000000af, 32u32) == 0x5bbedfd6,
        mulbv(0x5bbedfd6, 0x5bbedfd6, 0x1000000af, 32u32) == 0x27afa5be,
        mulbv(0x27afa5be, 0x27afa5be, 0x1000000af, 32u32) == 0xf0db1b29,
        mulbv(0xf0db1b29, 0xf0db1b29, 0x1000000af, 32u32) == 0x2264a683,
        mulbv(0x2264a683, 0x2264a683, 0x1000000af, 32u32) == 0xfaa007ab,
        mulbv(0xfaa007ab, 0xfaa007ab, 0x1000000af, 32u32) == 0xa402c54,
        mulbv(0xa402c54, 0xa402c54, 0x1000000af, 32u32) == 0x2d26e110,
        mulbv(0x2d26e110, 0x2d26e110, 0x1000000af, 32u32) == 0xc99cb412,
        mulbv(0xc99cb412, 0xc99cb412, 0x1000000af, 32u32) == 0x5e545a7b,
        mulbv(0x5e545a7b, 0x5e545a7b, 0x1000000af, 32u32) == 0x6dc24493,
        mulbv(0x6dc24493, 0x6dc24493, 0x1000000af, 32u32) == 0x7dae76c1,
        mulbv(0x7dae76c1, 0x7dae76c1, 0x1000000af, 32u32) == 0xd7a20af5,
        mulbv(0xd7a20af5, 0xd7a20af5, 0x1000000af, 32u32) == 0x978e3ee2,
        mulbv(0x978e3ee2, 0x978e3ee2, 0x1000000af, 32u32) == 0x629ca6e1,
        mulbv(0x629ca6e1, 0x629ca6e1, 0x1000000af, 32u32) == 0xa831f49,
        mulbv(0xa831f49, 0xa831f49, 0x1000000af, 32u32) == 0x2802d252,
        mulbv(0x2802d252, 0x2802d252, 0x1000000af, 32u32) == 0xc6c412e6,
        mulbv(0xc6c412e6, 0xc6c412e6, 0x1000000af, 32u32) == 0x39697bab,
        mulbv(0x39697bab, 0x39697bab, 0x1000000af, 32u32) == 0x2d222274,
        mulbv(0x2d222274, 0x2d222274, 0x1000000af, 32u32) == 0x9999aaf2,
        mulbv(0x2, 0x4, 0x1000000af, 32u32) == 0x8,
        mulbv(0x8, 0x10, 0x1000000af, 32u32) == 0x80,
        mulbv(0x80, 0x100, 0x1000000af, 32u32) == 0x8000,
        mulbv(0x8000, 0x10000, 0x1000000af, 32u32) == 0x80000000,
        mulbv(0x80000000, 0xaf, 0x1000000af, 32u32) == 0x8000227d,
        mulbv(0x8000227d, 0x4455, 0x1000000af, 32u32) == 0x880808df,
        mulbv(0x880808df, 0x10101111, 0x1000000af, 32u32) == 0xd700d757,
        mulbv(0xd700d757, 0xae01ae01, 0x1000000af, 32u32) == 0x8dec081b,
        mulbv(0x8dec081b, 0x1bd81099, 0x1000000af, 32u32) == 0xc3f97a97,
        mulbv(0xc3f97a97, 0x87f2f581, 0x1000000af, 32u32) == 0x4ee8b86a,
        mulbv(0x4ee8b86a, 0x9dd170d4, 0x1000000af, 32u32) == 0x2ddf6feb,
        mulbv(0x2ddf6feb, 0x5bbedfd6, 0x1000000af, 32u32) == 0x13d7d2df,
        mulbv(0x13d7d2df, 0x27afa5be, 0x1000000af, 32u32) == 0xf86d8dc3,
        mulbv(0xf86d8dc3, 0xf0db1b29, 0x1000000af, 32u32) == 0x91325316,
        mulbv(0x91325316, 0x2264a683, 0x1000000af, 32u32) == 0xfd500382,
        mulbv(0xfd500382, 0xfaa007ab, 0x1000000af, 32u32) == 0x520162a,
        mulbv(0x520162a, 0xa402c54, 0x1000000af, 32u32) == 0x16937088,
        mulbv(0x16937088, 0x2d26e110, 0x1000000af, 32u32) == 0x64ce5a09,
        mulbv(0x64ce5a09, 0xc99cb412, 0x1000000af, 32u32) == 0xaf2a2d6a,
        mulbv(0xaf2a2d6a, 0x5e545a7b, 0x1000000af, 32u32) == 0xb6e1221e,
        mulbv(0xb6e1221e, 0x6dc24493, 0x1000000af, 32u32) == 0xbed73b37,
        mulbv(0xbed73b37, 0x7dae76c1, 0x1000000af, 32u32) == 0xebd1052d,
        mulbv(0xebd1052d, 0xd7a20af5, 0x1000000af, 32u32) == 0x4bc71f71,
        mulbv(0x4bc71f71, 0x978e3ee2, 0x1000000af, 32u32) == 0xb14e5327,
        mulbv(0xb14e5327, 0x629ca6e1, 0x1000000af, 32u32) == 0x85418ff3,
        mulbv(0x85418ff3, 0xa831f49, 0x1000000af, 32u32) == 0x14016929,
        mulbv(0x14016929, 0x2802d252, 0x1000000af, 32u32) == 0x63620973,
        mulbv(0x63620973, 0xc6c412e6, 0x1000000af, 32u32) == 0x9cb4bd82,
        mulbv(0x9cb4bd82, 0x39697bab, 0x1000000af, 32u32) == 0x1691113a,
        mulbv(0x1691113a, 0x2d222274, 0x1000000af, 32u32) == 0x4cccd579,
        mulbv(0x4cccd579, 0x9999aaf2, 0x1000000af, 32u32) == 0x1,
        mulbv(0x2, 0x10, 0x1000000af, 32u32) == 0x20,
        mulbv(0x20, 0x10000, 0x1000000af, 32u32) == 0x200000,
        mulbv(0x200000, 0x4455, 0x1000000af, 32u32) == 0x8aa00578,
        mulbv(0x8aa00578, 0xae01ae01, 0x1000000af, 32u32) == 0x644bd5ef,
        mulbv(0x644bd5ef, 0x87f2f581, 0x1000000af, 32u32) == 0xcf01e1a1,
        mulbv(0xcf01e1a1, 0x5bbedfd6, 0x1000000af, 32u32) == 0xd3c1dd99,
        mulbv(0xd3c1dd99, 0xf0db1b29, 0x1000000af, 32u32) == 0xa503eba,
        mulbv(0xa503eba, 0xfaa007ab, 0x1000000af, 32u32) == 0x38ed5f4b,
        mulbv(0x38ed5f4b, 0x2d26e110, 0x1000000af, 32u32) == 0xa42d34ab,
        mulbv(0xa42d34ab, 0x5e545a7b, 0x1000000af, 32u32) == 0x62e3bf85,
        mulbv(0x62e3bf85, 0x7dae76c1, 0x1000000af, 32u32) == 0xf36e1870,
        mulbv(0xf36e1870, 0x978e3ee2, 0x1000000af, 32u32) == 0x50bc6d17,
        mulbv(0x50bc6d17, 0xa831f49, 0x1000000af, 32u32) == 0x199d9969,
        mulbv(0x199d9969, 0xc6c412e6, 0x1000000af, 32u32) == 0x56369c88,
        mulbv(0x56369c88, 0x2d222274, 0x1000000af, 32u32) == 0x6c33113f,
        mulbv(0x8, 0x10000, 0x1000000af, 32u32) == 0x80000,
        mulbv(0x80000, 0xaf, 0x1000000af, 32u32) == 0x5780000,
        mulbv(0x5780000, 0xae01ae01, 0x1000000af, 32u32) == 0x9da0daaa,
        mulbv(0x9da0daaa, 0x1bd81099, 0x1000000af, 32u32) == 0x5c66c470,
        mulbv(0x5c66c470, 0x5bbedfd6, 0x1000000af, 32u32) == 0x509f1df5,
        mulbv(0x509f1df5, 0x27afa5be, 0x1000000af, 32u32) == 0xf3537271,
        mulbv(0xf3537271, 0xfaa007ab, 0x1000000af, 32u32) == 0x6cfd0557,
        mulbv(0x6cfd0557, 0xa402c54, 0x1000000af, 32u32) == 0xd57b3b1,
        mulbv(0xd57b3b1, 0x5e545a7b, 0x1000000af, 32u32) == 0x3b066a4c,
        mulbv(0x3b066a4c, 0x6dc24493, 0x1000000af, 32u32) == 0x372b133e,
        mulbv(0x372b133e, 0x978e3ee2, 0x1000000af, 32u32) == 0x2a375787,
        mulbv(0x2a375787, 0x629ca6e1, 0x1000000af, 32u32) == 0x18e2bb91,
        mulbv(0x18e2bb91, 0xc6c412e6, 0x1000000af, 32u32) == 0xa1a0facc,
        mulbv(0xa1a0facc, 0x39697bab, 0x1000000af, 32u32) == 0xdc181c5c,
        mulbv(0x8000, 0xae01ae01, 0x1000000af, 32u32) == 0xd722fd00,
        mulbv(0xd722fd00, 0x1bd81099, 0x1000000af, 32u32) == 0x162573b0,
        mulbv(0x162573b0, 0x87f2f581, 0x1000000af, 32u32) == 0x9ca499a8,
        mulbv(0x9ca499a8, 0x9dd170d4, 0x1000000af, 32u32) == 0x47fef173,
        mulbv(0x47fef173, 0xfaa007ab, 0x1000000af, 32u32) == 0x2c78fdae,
        mulbv(0x2c78fdae, 0xa402c54, 0x1000000af, 32u32) == 0xa47f5863,
        mulbv(0xa47f5863, 0x2d26e110, 0x1000000af, 32u32) == 0xb3fe8b7c,
        mulbv(0xb3fe8b7c, 0xc99cb412, 0x1000000af, 32u32) == 0xdc92aecc,
        mulbv(0xdc92aecc, 0x978e3ee2, 0x1000000af, 32u32) == 0x7abb08da,
        mulbv(0x7abb08da, 0x629ca6e1, 0x1000000af, 32u32) == 0x127f072f,
        mulbv(0x127f072f, 0xa831f49, 0x1000000af, 32u32) == 0x9de54de1,
        mulbv(0x9de54de1, 0x2802d252, 0x1000000af, 32u32) == 0xd9df690d,
        mulbv(0xd700d757, 0xfaa007ab, 0x1000000af, 32u32) == 0x35fd6457,
        mulbv(0x35fd6457, 0xa402c54, 0x1000000af, 32u32) == 0x902f021a,
        mulbv(0x902f021a, 0x2d26e110, 0x1000000af, 32u32) == 0x44ff7ce1,
        mulbv(0x44ff7ce1, 0xc99cb412, 0x1000000af, 32u32) == 0xa20b424b,
        mulbv(0xa20b424b, 0x5e545a7b, 0x1000000af, 32u32) == 0x6b980bf4,
        mulbv(0x6b980bf4, 0x6dc24493, 0x1000000af, 32u32) == 0x48771d08,
        mulbv(0x48771d08, 0x7dae76c1, 0x1000000af, 32u32) == 0xb180141,
        mulbv(0xb180141, 0xd7a20af5, 0x1000000af, 32u32) == 0xe517a512,
{
}

/// The sizes of `gf2p32`.
pub proof fn lemma_gf2p32_sizes()
    ensures
        exp2(32) == 0x100000000,
        bitlen(0x1000000af) == 33,
{
    reveal_with_fuel(exp2, 35);
    lemma_bitlen_exact(0x1000000af, 33);
}

/// The powers `2^(2^k)` in `gf2p32`.
proof fn gf2p32_squares()
    ensures
        powmod(2, 0x1, 0x1000000af) == 0x2,
        powmod(2, 0x2, 0x1000000af) == 0x4,
        powmod(2, 0x4, 0x1000000af) == 0x10,
        powmod(2, 0x8, 0x1000000af) == 0x100,
        powmod(2, 0x10, 0x1000000af) == 0x10000,
        powmod(2, 0x20, 0x1000000af) == 0xaf,
        powmod(2, 0x40, 0x1000000af) == 0x4455,
        powmod(2, 0x80, 0x1000000af) == 0x10101111,
        powmod(2, 0x100, 0x1000000af) == 0xae01ae01,
        powmod(2, 0x200, 0x1000000af) == 0x1bd81099,
        powmod(2, 0x400, 0x1000000af) == 0x87f2f581,
        powmod(2, 0x800, 0x1000000af) == 0x9dd170d4,
        powmod(2, 0x1000, 0x1000000af) == 0x5bbedfd6,
        powmod(2, 0x2000, 0x1000000af) == 0x27afa5be,
        powmod(2, 0x4000, 0x1000000af) == 0xf0db1b29,
        powmod(2, 0x8000, 0x1000000af) == 0x2264a683,
        powmod(2, 0x10000, 0x1000000af) == 0xfaa007ab,
        powmod(2, 0x20000, 0x1000000af) == 0xa402c54,
        powmod(2, 0x40000, 0x1000000af) == 0x2d26e110,
        powmod(2, 0x80000, 0x1000000af) == 0xc99cb412,
        powmod(2, 0x100000, 0x1000000af) == 0x5e545a7b,
        powmod(2, 0x200000, 0x1000000af) == 0x6dc24493,
        powmod(2, 0x400000, 0x1000000af) == 0x7dae76c1,
        powmod(2, 0x800000, 0x1000000af) == 0xd7a20af5,
        powmod(2, 0x1000000, 0x1000000af) == 0x978e3ee2,
        powmod(2, 0x2000000, 0x1000000af) == 0x629ca6e1,
        powmod(2, 0x4000000, 0x1000000af) == 0xa831f49,
        powmod(2, 0x8000000, 0x1000000af) == 0x2802d252,
        powmod(2, 0x10000000, 0x1000000af) == 0xc6c412e6,
        powmod(2, 0x20000000, 0x1000000af) == 0x39697bab,
        powmod(2, 0x40000000, 0x1000000af) == 0x2d222274,
        powmod(2, 0x80000000, 0x1000000af) == 0x9999aaf2,
{
    lemma_gf2p32_sizes();
    gf2p32_products();
    lemma_first_power(0x1000000af, 32);
    lemma_powmod_add(2, 0x1, 0x1, 0x1000000af);
    lemma_mulbv(0x2, 0x2, 0x1000000af, 32u32);
    lemma_powmod_add(2, 0x2, 0x2, 0x1000000af);
    lemma_mulbv(0x4, 0x4, 0x1000000af, 32u32);
    lemma_powmod_add(2, 0x4, 0x4, 0x1000000af);
    lemma_mulbv(0x10, 0x10, 0x1000000af, 32u32);
    lemma_powmod_add(2, 0x8, 0x8, 0x1000000af);
    lemma_mulbv(0x100, 0x100, 0x1000000af, 32u32);
    lemma_powmod_add(2, 0x10, 0x10, 0x1000000af);
    lemma_mulbv(0x10000, 0x10000, 0x1000000af, 32u32);
    lemma_powmod_add(2, 0x20, 0x20, 0x1000000af);
    lemma_mulbv(0xaf, 0xaf, 0x1000000af, 32u32);
    lemma_powmod_add(2, 0x40, 0x40, 0x1000000af);
    lemma_mulbv(0x4455, 0x4455, 0x1000000af, 32u32);
    lemma_powmod_add(2, 0x80, 0x80, 0x1000000af);
    lemma_mulbv(0x10101111, 0x10101111, 0x1000000af, 32u32);
    lemma_powmod_add(2, 0x100, 0x100, 0x1000000af);
    lemma_mulbv(0xae01ae01, 0xae01ae01, 0x1000000af, 32u32);
    lemma_powmod_add(2, 0x200, 0x200, 0x1000000af);
    lemma_mulbv(0x1bd81099, 0x1bd81099, 0x1000000af, 32u32);
    lemma_powmod_add(2, 0x400, 0x400, 0x1000000af);
    lemma_mulbv(0x87f2f581, 0x87f2f581, 0x1000000af, 32u32);
    lemma_powmod_add(2, 0x800, 0x800, 0x1000000af);
    lemma_mulbv(0x9dd170d4, 0x9dd170d4, 0x1000000af, 32u32);
    lemma_powmod_add(2, 0x1000, 0x1000, 0x1000000af);
    lemma_mulbv(0x5bbedfd6, 0x5bbedfd6, 0x1000000af, 32u32);
    lemma_powmod_add(2, 0x2000, 0x2000, 0x1000000af);
    lemma_mulbv(0x27afa5be, 0x27afa5be, 0x1000000af, 32u32);
    lemma_powmod_add(2, 0x4000, 0x4000, 0x1000000af);
    lemma_mulbv(0xf0db1b29, 0xf0db1b29, 0x1000000af, 32u32);
    lemma_powmod_add(2, 0x8000, 0x8000, 0x1000000af);
    lemma_mulbv(0x2264a683, 0x2264a683, 0x1000000af, 32u32);
    lemma_powmod_add(2, 0x10000, 0x10000, 0x1000000af);
    lemma_mulbv(0xfaa007ab, 0xfaa007ab, 0x1000000af, 32u32);
    lemma_powmod_add(2, 0x20000, 0x20000, 0x1000000af);
    lemma_mulbv(0xa402c54, 0xa402c54, 0x1000000af, 32u32);
    lemma_powmod_add(2, 0x40000, 0x40000, 0x1000000af);
    lemma_mulbv(0x2d26e110, 0x2d26e110, 0x1000000af, 32u32);
    lemma_powmod_add(2, 0x80000, 0x80000, 0x1000000af);
    lemma_mulbv(0xc99cb412, 0xc99cb412, 0x1000000af, 32u32);
    lemma_powmod_add(2, 0x100000, 0x100000, 0x1000000af);
    lemma_mulbv(0x5e545a7b, 0x5e545a7b, 0x1000000af, 32u32);
    lemma_powmod_add(2, 0x200000, 0x200000, 0x1000000af);
    lemma_mulbv(0x6dc24493, 0x6dc24493, 0x1000000af, 32u32);
    lemma_powmod_add(2, 0x400000, 0x400000, 0x1000000af);
    lemma_mulbv(0x7dae76c1, 0x7dae76c1, 0x1000000af, 32u32);
    lemma_powmod_add(2, 0x800000, 0x800000, 0x1000000af);
    lemma_mulbv(0xd7a20af5, 0xd7a20af5, 0x1000000af, 32u32);
    lemma_powmod_add(2, 0x1000000, 0x1000000, 0x1000000af);
    lemma_mulbv(0x978e3ee2, 0x978e3ee2, 0x1000000af, 32u32);
    lemma_powmod_add(2, 0x2000000, 0x2000000, 0x1000000af);
    lemma_mulbv(0x629ca6e1, 0x629ca6e1, 0x1000000af, 32u32);
    lemma_powmod_add(2, 0x4000000, 0x4000000, 0x1000000af);
    lemma_mulbv(0xa831f49, 0xa831f49, 0x1000000af, 32u32);
    lemma_powmod_add(2, 0x8000000, 0x8000000, 0x1000000af);
    lemma_mulbv(0x2802d252, 0x2802d252, 0x1000000af, 32u32);
    lemma_powmod_add(2, 0x10000000, 0x10000000, 0x1000000af);
    lemma_mulbv(0xc6c412e6, 0xc6c412e6, 0x1000000af, 32u32);
    lemma_powmod_add(2, 0x20000000, 0x20000000, 0x1000000af);
    lemma_mulbv(0x39697bab, 0x39697bab, 0x1000000af, 32u32);
    lemma_powmod_add(2, 0x40000000, 0x40000000, 0x1000000af);
    lemma_mulbv(0x2d222274, 0x2d222274, 0x1000000af, 32u32);
}

/// `2^0xffffffff` in `gf2p32`.
proof fn gf2p32_power_ffffffff()
    ensures
        powmod(2, 0xffffffff, 0x1000000af) == 0x1,
{
    lemma_gf2p32_sizes();
    gf2p32_products();
    gf2p32_squares();
    lemma_powmod_add(2, 0x1, 0x2, 0x1000000af);
    lemma_mulbv(0x2, 0x4, 0x1000000af, 32u32);
    lemma_powmod_add(2, 0x3, 0x4, 0x1000000af);
    lemma_mulbv(0x8, 0x10, 0x1000000af, 32u32);
    lemma_powmod_add(2, 0x7, 0x8, 0x1000000af);
    lemma_mulbv(0x80, 0x100, 0x1000000af, 32u32);
    lemma_powmod_add(2, 0xf, 0x10, 0x1000000af);
    lemma_mulbv(0x8000, 0x10000, 0x1000000af, 32u32);
    lemma_powmod_add(2, 0x1f, 0x20, 0x1000000af);
    lemma_mulbv(0x80000000, 0xaf, 0x1000000af, 32u32);
    lemma_powmod_add(2, 0x3f, 0x40, 0x1000000af);
    lemma_mulbv(0x8000227d, 0x4455, 0x1000000af, 32u32);
    lemma_powmod_add(2, 0x7f, 0x80, 0x1000000af);
    lemma_mulbv(0x880808df, 0x10101111, 0x1000000af, 32u32);
    lemma_powmod_add(2, 0xff, 0x100, 0x1000000af);
    lemma_mulbv(0xd700d757, 0xae01ae01, 0x1000000af, 32u32);
    lemma_powmod_add(2, 0x1ff, 0x200, 0x1000000af);
    lemma_mulbv(0x8dec081b, 0x1bd81099, 0x1000000af, 32u32);
    lemma_powmod_add(2, 0x3ff, 0x400, 0x1000000af);
    lemma_mulbv(0xc3f97a97, 0x87f2f581, 0x1000000af, 32u32);
    lemma_powmod_add(2, 0x7ff, 0x800, 0x1000000af);
    lemma_mulbv(0x4ee8b86a, 0x9dd170d4, 0x1000000af, 32u32);
    lemma_powmod_add(2, 0xfff, 0x1000, 0x1000000af);
    lemma_mulbv(0x2ddf6feb, 0x5bbedfd6, 0x1000000af, 32u32);
    lemma_powmod_add(2, 0x1fff, 0x2000, 0x1000000af);
    lemma_mulbv(0x13d7d2df, 0x27afa5be, 0x1000000af, 32u32);
    lemma_powmod_add(2, 0x3fff, 0x4000, 0x1000000af);
    lemma_mulbv(0xf86d8dc3, 0xf0db1b29, 0x1000000af, 32u32);
    lemma_powmod_add(2, 0x7fff, 0x8000, 0x1000000af);
    lemma_mulbv(0x91325316, 0x2264a683, 0x1000000af, 32u32);
    lemma_powmod_add(2, 0xffff, 0x10000, 0x1000000af);
    lemma_mulbv(0xfd500382, 0xfaa007ab, 0x1000000af, 32u32);
    lemma_powmod_add(2, 0x1ffff, 0x20000, 0x1000000af);
    lemma_mulbv(0x520162a, 0xa402c54, 0x1000000af, 32u32);
    lemma_powmod_add(2, 0x3ffff, 0x40000, 0x1000000af);
    lemma_mulbv(0x16937088, 0x2d26e110, 0x1000000af, 32u32);
    lemma_powmod_add(2, 0x7ffff, 0x80000, 0x1000000af);
    lemma_mulbv(0x64ce5a09, 0xc99cb412, 0x1000000af, 32u32);
    lemma_powmod_add(2, 0xfffff, 0x100000, 0x1000000af);
    lemma_mulbv(0xaf2a2d6a, 0x5e545a7b, 0x1000000af, 32u32);
    lemma_powmod_add(2, 0x1fffff, 0x200000, 0x1000000af);
    lemma_mulbv(0xb6e1221e, 0x6dc24493, 0x1000000af, 32u32);
    lemma_powmod_add(2, 0x3fffff, 0x400000, 0x1000000af);
    lemma_mulbv(0xbed73b37, 0x7dae76c1, 0x1000000af, 32u32);
    lemma_powmod_add(2, 0x7fffff, 0x800000, 0x1000000af);
    lemma_mulbv(0xebd1052d, 0xd7a20af5, 0x1000000af, 32u32);
    lemma_powmod_add(2, 0xffffff, 0x1000000, 0x1000000af);
    lemma_mulbv(0x4bc71f71, 0x978e3ee2, 0x1000000af, 32u32);
    lemma_powmod_add(2, 0x1ffffff, 0x2000000, 0x1000000af);
    lemma_mulbv(0xb14e5327, 0x629ca6e1, 0x1000000af, 32u32);
    lemma_powmod_add(2, 0x3ffffff, 0x4000000, 0x1000000af);
    lemma_mulbv(0x85418ff3, 0xa831f49, 0x1000000af, 32u32);
    lemma_powmod_add(2, 0x7ffffff, 0x8000000, 0x1000000af);
    lemma_mulbv(0x14016929, 0x2802d252, 0x1000000af, 32u32);
    lemma_powmod_add(2, 0xfffffff, 0x10000000, 0x1000000af);
    lemma_mulbv(0x63620973, 0xc6c412e6, 0x1000000af, 32u32);
    lemma_powmod_add(2, 0x1fffffff, 0x20000000, 0x1000000af);
    lemma_mulbv(0x9cb4bd82, 0x39697bab, 0x1000000af, 32u32);
    lemma_powmod_add(2, 0x3fffffff, 0x40000000, 0x1000000af);
    lemma_mulbv(0x1691113a, 0x2d222274, 0x1000000af, 32u32);
    lemma_powmod_add(2, 0x7fffffff, 0x80000000, 0x1000000af);
    lemma_mulbv(0x4cccd579, 0x9999aaf2, 0x1000000af, 32u32);
}

/// `2^0x55555555` in `gf2p32`.
proof fn gf2p32_power_55555555()
    ensures
        powmod(2, 0x55555555, 0x1000000af) == 0x6c33113f,
{
    lemma_gf2p32_sizes();
    gf2p32_products();
    gf2p32_squares();
    lemma_powmod_add(2, 0x1, 0x4, 0x1000000af);
    lemma_mulbv(0x2, 0x10, 0x1000000af, 32u32);
    lemma_powmod_add(2, 0x5, 0x10, 0x1000000af);
    lemma_mulbv(0x20, 0x10000, 0x1000000af, 32u32);
    lemma_powmod_add(2, 0x15, 0x40, 0x1000000af);
    lemma_mulbv(0x200000, 0x4455, 0x1000000af, 32u32);
    lemma_powmod_add(2, 0x55, 0x100, 0x1000000af);
    lemma_mulbv(0x8aa00578, 0xae01ae01, 0x1000000af, 32u32);
    lemma_powmod_add(2, 0x155, 0x400, 0x1000000af);
    lemma_mulbv(0x644bd5ef, 0x87f2f581, 0x1000000af, 32u32);
    lemma_powmod_add(2, 0x555, 0x1000, 0x1000000af);
    lemma_mulbv(0xcf01e1a1, 0x5bbedfd6, 0x1000000af, 32u32);
    lemma_powmod_add(2, 0x1555, 0x4000, 0x1000000af);
    lemma_mulbv(0xd3c1dd99, 0xf0db1b29, 0x1000000af, 32u32);
    lemma_powmod_add(2, 0x5555, 0x10000, 0x1000000af);
    lemma_mulbv(0xa503eba, 0xfaa007ab, 0x1000000af, 32u32);
    lemma_powmod_add(2, 0x15555, 0x40000, 0x1000000af);
    lemma_mulbv(0x38ed5f4b, 0x2d26e110, 0x1000000af, 32u32);
    lemma_powmod_add(2, 0x55555, 0x100000, 0x1000000af);
    lemma_mulbv(0xa42d34ab, 0x5e545a7b, 0x1000000af, 32u32);
    lemma_powmod_add(2, 0x155555, 0x400000, 0x1000000af);
    lemma_mulbv(0x62e3bf85, 0x7dae76c1, 0x1000000af, 32u32);
    lemma_powmod_add(2, 0x555555, 0x1000000, 0x1000000af);
    lemma_mulbv(0xf36e1870, 0x978e3ee2, 0x1000000af, 32u32);
    lemma_powmod_add(2, 0x1555555, 0x4000000, 0x1000000af);
    lemma_mulbv(0x50bc6d17, 0xa831f49, 0x1000000af, 32u32);
    lemma_powmod_add(2, 0x5555555, 0x10000000, 0x1000000af);
    lemma_mulbv(0x199d9969, 0xc6c412e6, 0x1000000af, 32u32);
    lemma_powmod_add(2, 0x15555555, 0x40000000, 0x1000000af);
    lemma_mulbv(0x56369c88, 0x2d222274, 0x1000000af, 32u32);
}

/// `2^0x33333333` in `gf2p32`.
proof fn gf2p32_power_33333333()
    ensures
        powmod(2, 0x33333333, 0x1000000af) == 0xdc181c5c,
{
    lemma_gf2p32_sizes();
    gf2p32_products();
    gf2p32_squares();
    lemma_powmod_add(2, 0x1, 0x2, 0x1000000af);
    lemma_mulbv(0x2, 0x4, 0x1000000af, 32u32);
    lemma_powmod_add(2, 0x3, 0x10, 0x1000000af);
    lemma_mulbv(0x8, 0x10000, 0x1000000af, 32u32);
    lemma_powmod_add(2, 0x13, 0x20, 0x1000000af);
    lemma_mulbv(0x80000, 0xaf, 0x1000000af, 32u32);
    lemma_powmod_add(2, 0x33, 0x100, 0x1000000af);
    lemma_mulbv(0x5780000, 0xae01ae01, 0x1000000af, 32u32);
    lemma_powmod_add(2, 0x133, 0x200, 0x1000000af);
    lemma_mulbv(0x9da0daaa, 0x1bd81099, 0x1000000af, 32u32);
    lemma_powmod_add(2, 0x333, 0x1000, 0x1000000af);
    lemma_mulbv(0x5c66c470, 0x5bbedfd6, 0x1000000af, 32u32);
    lemma_powmod_add(2, 0x1333, 0x2000, 0x1000000af);
    lemma_mulbv(0x509f1df5, 0x27afa5be, 0x1000000af, 32u32);
    lemma_powmod_add(2, 0x3333, 0x10000, 0x1000000af);
    lemma_mulbv(0xf3537271, 0xfaa007ab, 0x1000000af, 32u32);
    lemma_powmod_add(2, 0x13333, 0x20000, 0x1000000af);
    lemma_mulbv(0x6cfd0557, 0xa402c54, 0x1000000af, 32u32);
    lemma_powmod_add(2, 0x33333, 0x100000, 0x1000000af);
    lemma_mulbv(0xd57b3b1, 0x5e545a7b, 0x1000000af, 32u32);
    lemma_powmod_add(2, 0x133333, 0x200000, 0x1000000af);
    lemma_mulbv(0x3b066a4c, 0x6dc24493, 0x1000000af, 32u32);
    lemma_powmod_add(2, 0x333333, 0x1000000, 0x1000000af);
    lemma_mulbv(0x372b133e, 0x978e3ee2, 0x1000000af, 32u32);
    lemma_powmod_add(2, 0x1333333, 0x2000000, 0x1000000af);
    lemma_mulbv(0x2a375787, 0x629ca6e1, 0x1000000af, 32u32);
    lemma_powmod_add(2, 0x3333333, 0x10000000, 0x1000000af);
    lemma_mulbv(0x18e2bb91, 0xc6c412e6, 0x1000000af, 32u32);
    lemma_powmod_add(2, 0x13333333, 0x20000000, 0x1000000af);
    lemma_mulbv(0xa1a0facc, 0x39697bab, 0x1000000af, 32u32);
}

/// `2^0xf0f0f0f` in `gf2p32`.
proof fn gf2p32_power_f0f0f0f()
    ensures
        powmod(2, 0xf0f0f0f, 0x1000000af) == 0xd9df690d,
{
    lemma_gf2p32_sizes();
    gf2p32_products();
    gf2p32_squares();
    lemma_powmod_add(2, 0x1, 0x2, 0x1000000af);
    lemma_mulbv(0x2, 0x4, 0x1000000af, 32u32);
    lemma_powmod_add(2, 0x3, 0x4, 0x1000000af);
    lemma_mulbv(0x8, 0x10, 0x1000000af, 32u32);
    lemma_powmod_add(2, 0x7, 0x8, 0x1000000af);
    lemma_mulbv(0x80, 0x100, 0x1000000af, 32u32);
    lemma_powmod_add(2, 0xf, 0x100, 0x1000000af);
    lemma_mulbv(0x8000, 0xae01ae01, 0x1000000af, 32u32);
    lemma_powmod_add(2, 0x10f, 0x200, 0x1000000af);
    lemma_mulbv(0xd722fd00, 0x1bd81099, 0x1000000af, 32u32);
    lemma_powmod_add(2, 0x30f, 0x400, 0x1000000af);
    lemma_mulbv(0x162573b0, 0x87f2f581, 0x1000000af, 32u32);
    lemma_powmod_add(2, 0x70f, 0x800, 0x1000000af);
    lemma_mulbv(0x9ca499a8, 0x9dd170d4, 0x1000000af, 32u32);
    lemma_powmod_add(2, 0xf0f, 0x10000, 0x1000000af);
    lemma_mulbv(0x47fef173, 0xfaa007ab, 0x1000000af, 32u32);
    lemma_powmod_add(2, 0x10f0f, 0x20000, 0x1000000af);
    lemma_mulbv(0x2c78fdae, 0xa402c54, 0x1000000af, 32u32);
    lemma_powmod_add(2, 0x30f0f, 0x40000, 0x1000000af);
    lemma_mulbv(0xa47f5863, 0x2d26e110, 0x1000000af, 32u32);
    lemma_powmod_add(2, 0x70f0f, 0x80000, 0x1000000af);
    lemma_mulbv(0xb3fe8b7c, 0xc99cb412, 0x1000000af, 32u32);
    lemma_powmod_add(2, 0xf0f0f, 0x1000000, 0x1000000af);
    lemma_mulbv(0xdc92aecc, 0x978e3ee2, 0x1000000af, 32u32);
    lemma_powmod_add(2, 0x10f0f0f, 0x2000000, 0x1000000af);
    lemma_mulbv(0x7abb08da, 0x629ca6e1, 0x1000000af, 32u32);
    lemma_powmod_add(2, 0x30f0f0f, 0x4000000, 0x1000000af);
    lemma_mulbv(0x127f072f, 0xa831f49, 0x1000000af, 32u32);
    lemma_powmod_add(2, 0x70f0f0f, 0x8000000, 0x1000000af);
    lemma_mulbv(0x9de54de1, 0x2802d252, 0x1000000af, 32u32);
}

/// `2^0xff00ff` in `gf2p32`.
proof fn gf2p32_power_ff00ff()
    ensures
        powmod(2, 0xff00ff, 0x1000000af) == 0xe517a512,
{
    lemma_gf2p32_sizes();
    gf2p32_products();
    gf2p32_squares();
    lemma_powmod_add(2, 0x1, 0x2, 0x1000000af);
    lemma_mulbv(0x2, 0x4, 0x1000000af, 32u32);
    lemma_powmod_add(2, 0x3, 0x4, 0x1000000af);
    lemma_mulbv(0x8, 0x10, 0x1000000af, 32u32);
    lemma_powmod_add(2, 0x7, 0x8, 0x1000000af);
    lemma_mulbv(0x80, 0x100, 0x1000000af, 32u32);
    lemma_powmod_add(2, 0xf, 0x10, 0x1000000af);
    lemma_mulbv(0x8000, 0x10000, 0x1000000af, 32u32);
    lemma_powmod_add(2, 0x1f, 0x20, 0x1000000af);
    lemma_mulbv(0x80000000, 0xaf, 0x1000000af, 32u32);
    lemma_powmod_add(2, 0x3f, 0x40, 0x1000000af);
    lemma_mulbv(0x8000227d, 0x4455, 0x1000000af, 32u32);
    lemma_powmod_add(2, 0x7f, 0x80, 0x1000000af);
    lemma_mulbv(0x880808df, 0x10101111, 0x1000000af, 32u32);
    lemma_powmod_add(2, 0xff, 0x10000, 0x1000000af);
    lemma_mulbv(0xd700d757, 0xfaa007ab, 0x1000000af, 32u32);
    lemma_powmod_add(2, 0x100ff, 0x20000, 0x1000000af);
    lemma_mulbv(0x35fd6457, 0xa402c54, 0x1000000af, 32u32);
    lemma_powmod_add(2, 0x300ff, 0x40000, 0x1000000af);
    lemma_mulbv(0x902f021a, 0x2d26e110, 0x1000000af, 32u32);
    lemma_powmod_add(2, 0x700ff, 0x80000, 0x1000000af);
    lemma_mulbv(0x44ff7ce1, 0xc99cb412, 0x1000000af, 32u32);
    lemma_powmod_add(2, 0xf00ff, 0x100000, 0x1000000af);
    lemma_mulbv(0xa20b424b, 0x5e545a7b, 0x1000000af, 32u32);
    lemma_powmod_add(2, 0x1f00ff, 0x200000, 0x1000000af);
    lemma_mulbv(0x6b980bf4, 0x6dc24493, 0x1000000af, 32u32);
    lemma_powmod_add(2, 0x3f00ff, 0x400000, 0x1000000af);
    lemma_mulbv(0x48771d08, 0x7dae76c1, 0x1000000af, 32u32);
    lemma_powmod_add(2, 0x7f00ff, 0x800000, 0x1000000af);
    lemma_mulbv(0xb180141, 0xd7a20af5, 0x1000000af, 32u32);
}

/// `2^0xffff` in `gf2p32`.
proof fn gf2p32_power_ffff()
    ensures
        powmod(2, 0xffff, 0x1000000af) == 0xfd500382,
{
    lemma_gf2p32_sizes();
    gf2p32_products();
    gf2p32_squares();
    lemma_powmod_add(2, 0x1, 0x2, 0x1000000af);
    lemma_mulbv(0x2, 0x4, 0x1000000af, 32u32);
    lemma_powmod_add(2, 0x3, 0x4, 0x1000000af);
    lemma_mulbv(0x8, 0x10, 0x1000000af, 32u32);
    lemma_powmod_add(2, 0x7, 0x8, 0x1000000af);
    lemma_mulbv(0x80, 0x100, 0x1000000af, 32u32);
    lemma_powmod_add(2, 0xf, 0x10, 0x1000000af);
    lemma_mulbv(0x8000, 0x10000, 0x1000000af, 32u32);
    lemma_powmod_add(2, 0x1f, 0x20, 0x1000000af);
    lemma_mulbv(0x80000000, 0xaf, 0x1000000af, 32u32);
    lemma_powmod_add(2, 0x3f, 0x40, 0x1000000af);
    lemma_mulbv(0x8000227d, 0x4455, 0x1000000af, 32u32);
    lemma_powmod_add(2, 0x7f, 0x80, 0x1000000af);
    lemma_mulbv(0x880808df, 0x10101111, 0x1000000af, 32u32);
    lemma_powmod_add(2, 0xff, 0x100, 0x1000000af);
    lemma_mulbv(0xd700d757, 0xae01ae01, 0x1000000af, 32u32);
    lemma_powmod_add(2, 0x1ff, 0x200, 0x1000000af);
    lemma_mulbv(0x8dec081b, 0x1bd81099, 0x1000000af, 32u32);
    lemma_powmod_add(2, 0x3ff, 0x400, 0x1000000af);
    lemma_mulbv(0xc3f97a97, 0x87f2f581, 0x1000000af, 32u32);
    lemma_powmod_add(2, 0x7ff, 0x800, 0x1000000af);
    lemma_mulbv(0x4ee8b86a, 0x9dd170d4, 0x1000000af, 32u32);
    lemma_powmod_add(2, 0xfff, 0x1000, 0x1000000af);
    lemma_mulbv(0x2ddf6feb, 0x5bbedfd6, 0x1000000af, 32u32);
    lemma_powmod_add(2, 0x1fff, 0x2000, 0x1000000af);
    lemma_mulbv(0x13d7d2df, 0x27afa5be, 0x1000000af, 32u32);
    lemma_powmod_add(2, 0x3fff, 0x4000, 0x1000000af);
    lemma_mulbv(0xf86d8dc3, 0xf0db1b29, 0x1000000af, 32u32);
    lemma_powmod_add(2, 0x7fff, 0x8000, 0x1000000af);
    lemma_mulbv(0x91325316, 0x2264a683, 0x1000000af, 32u32);
}

/// `2` has order `2^32 - 1` in `gf2p32`: `2^0xffffffff == 1`, and no smaller positive
/// power of `2` is one.
pub proof fn lemma_gf2p32_generator()
    ensures
        powmod(2, 0xffffffff, 0x1000000af) == 1,
        forall|k: nat| 0 < k < 0xffffffff ==> #[trigger] powmod(2, k, 0x1000000af) != 1,
{
    lemma_gf2p32_sizes();
    lemma_primes();
    gf2p32_power_ffffffff();
    gf2p32_power_55555555();
    gf2p32_power_33333333();
    gf2p32_power_f0f0f0f();
    gf2p32_power_ff00ff();
    gf2p32_power_ffff();
    let s0: Seq<nat> = Seq::empty();
    assert(prod(s0) == 1);
    let s1: Seq<nat> = s0.push(3nat);
    assert(s1.drop_last() =~= s0);
    assert(s1.last() == 3);
    assert(prod(s1) == 3);
    let s2: Seq<nat> = s1.push(5nat);
    assert(s2.drop_last() =~= s1);
    assert(s2.last() == 5);
    assert(prod(s2) == 15);
    let s3: Seq<nat> = s2.push(17nat);
    assert(s3.drop_last() =~= s2);
    assert(s3.last() == 17);
    assert(prod(s3) == 255);
    let s4: Seq<nat> = s3.push(257nat);
    assert(s4.drop_last() =~= s3);
    assert(s4.last() == 257);
    assert(prod(s4) == 65535);
    let s5: Seq<nat> = s4.push(65537nat);
    assert(s5.drop_last() =~= s4);
    assert(s5.last() == 65537);
    assert(prod(s5) == 4294967295);
    let ps = s5;
    assert forall|i: int| 0 <= i < ps.len() implies is_prime(#[trigger] ps[i]) by {
    }
    assert forall|i: int| 0 <= i < ps.len() implies #[trigger] powmod(2, (0xffffffff as nat) / ps[i], 0x1000000af) != 1 by {
        if i == 0 {
            assert(ps[i] == 3);
            assert((0xffffffff as nat) / 3nat == 0x55555555);
        } else if i == 1 {
            assert(ps[i] == 5);
            assert((0xffffffff as nat) / 5nat == 0x33333333);
        } else if i == 2 {
            assert(ps[i] == 17);
            assert((0xffffffff as nat) / 17nat == 0xf0f0f0f);
        } else if i == 3 {
            assert(ps[i] == 257);
            assert((0xffffffff as nat) / 257nat == 0xff00ff);
        } else if i == 4 {
            assert(ps[i] == 65537);
            assert((0xffffffff as nat) / 65537nat == 0xffff);
        }
    }
    lemma_order(2, 0x1000000af, 32, 0xffffffff, ps);
}

/// Every non-zero element of `gf2p32` is a power `2^k` with `k < 2^32 - 1`,
/// the powers below `2^32 - 1` are non-zero and distinct, and every non-zero
/// element `b` satisfies `b^(2^32 - 1) == 1`.
pub proof fn lemma_gf2p32_field()
    ensures
        field_inverts(0x1000000af, 32),
        forall|x: nat| x < 0xffffffff ==> #[trigger] powmod(2, x, 0x1000000af) != 0,
        forall|x: nat, y: nat| x < 0xffffffff && y < 0xffffffff && x != y
            ==> #[trigger] powmod(2, x, 0x1000000af) != #[trigger] powmod(2, y, 0x1000000af),
{
    lemma_gf2p32_sizes();
    lemma_gf2p32_generator();
    lemma_generator_covers(2, 0x1000000af, 32);
}

/// Products of powers of `2` in `gf2p64`, evaluated on machine words.
proof fn gf2p64_products() by (bit_vector)
    ensures
        mulbv(0x2, 0x2, 0x1000000000000001b, 64u32) == 0x4,
        mulbv(0x4, 0x4, 0x1000000000000001b, 64u32) == 0x10,
        mulbv(0x10, 0x10, 0x1000000000000001b, 64u32) == 0x100,
        mulbv(0x100, 0x100, 0x1000000000000001b, 64u32) == 0x10000,
        mulbv(0x10000, 0x10000, 0x1000000000000001b, 64u32) == 0x100000000,
        mulbv(0x100000000, 0x100000000, 0x1000000000000001b, 64u32) == 0x1b,
        mulbv(0x1b, 0x1b, 0x1000000000000001b, 64u32) == 0x145,
        mulbv(0x145, 0x145, 0x1000000000000001b, 64u32) == 0x11011,
        mulbv(0x11011, 0x11011, 0x1000000000000001b, 64u32) == 0x101000101,
        mulbv(0x101000101, 0x101000101, 0x1000000000000001b, 64u32) == 0x100000001001a,
        mulbv(0x100000001001a, 0x100000001001a, 0x1000000000000001b, 64u32) == 0x1a00000144,
        mulbv(0x1a00000144, 0x1a00000144, 0x1000000000000001b, 64u32) == 0x10dbc,
        mulbv(0x10dbc, 0x10dbc, 0x1000000000000001b, 64u32) == 0x100514550,
        mulbv(0x100514550, 0x100514550, 0x1000000000000001b, 64u32) == 0x11011011111b,
        mulbv(0x11011011111b, 0x11011011111b, 0x1000000000000001b, 64u32) == 0x10001011a1a015e,
        mulbv(0x10001011a1a015e, 0x10001011a1a015e, 0x1000000000000001b, 64u32) == 0x15f0144001a114f,
        mulbv(0x15f0144001a114f, 0x15f0144001a114f, 0x1000000000000001b, 64u32) == 0x1aad43011ba1e5,
        mulbv(0x1aad43011ba1e5, 0x1aad43011ba1e5, 0x1000000000000001b, 64u32) == 0x11cefef6be466,
        mulbv(0x11cefef6be466, 0x11cefef6be466, 0x1000000000000001b, 64u32) == 0x5455145e48670f13,
        mulbv(0x5455145e48670f13, 0x5455145e48670f13, 0x1000000000000001b, 64u32) == 0xbaf1bebe1ae4ad02,
        mulbv(0xbaf1bebe1ae4ad02, 0xbaf1bebe1ae4ad02, 0x1000000000000001b, 64u32) == 0xb0ef530df44bb042,
        mulbv(0xb0ef530df44bb042, 0xb0ef530df44bb042, 0x1000000000000001b, 64u32) == 0xe2170b43ee771735,
        mulbv(0xe2170b43ee771735, 0xe2170b43ee771735, 0x1000000000000001b, 64u32) == 0x48380fd207a3b527,
        mulbv(0x48380fd207a3b527, 0x48380fd207a3b527, 0x1000000000000001b, 64u32) == 0xb6d535c542116f62,
        mulbv(0xb6d535c542116f62, 0xb6d535c542116f62, 0x1000000000000001b, 64u32) == 0xa6df6baa62f965f5,
        mulbv(0xa6df6baa62f965f5, 0xa6df6baa62f965f5, 0x1000000000000001b, 64u32) == 0xb9df3947cea0ffe7,
        mulbv(0xb9df3947cea0ffe7, 0xb9df3947cea0ffe7, 0x1000000000000001b, 64u32) == 0xe1882807248fe588,
        mulbv(0xe1882807248fe588, 0xe1882807248fe588, 0x1000000000000001b, 64u32) == 0x180d86953ed141c6,
        mulbv(0x180d86953ed141c6, 0x180d86953ed141c6, 0x1000000000000001b, 64u32) == 0x1894566cd1db8abf,
        mulbv(0x1894566cd1db8abf, 0x1894566cd1db8abf, 0x1000000000000001b, 64u32) == 0x4cc78bf4ea999e25,
        mulbv(0x4cc78bf4ea999e25, 0x4cc78bf4ea999e25, 0x1000000000000001b, 64u32) == 0xe333308087e402ba,
        mulbv(0xe333308087e402ba, 0xe333308087e402ba, 0x1000000000000001b, 64u32) == 0x5c62236777028505,
        mulbv(0x5c62236777028505, 0x5c62236777028505, 0x1000000000000001b, 64u32) == 0xb964dc682c67ddcd,
        mulbv(0xb964dc682c67ddcd, 0xb964dc682c67ddcd, 0x1000000000000001b, 64u32) == 0xb58ac9a23d208acb,
        mulbv(0xb58ac9a23d208acb, 0xb58ac9a23d208acb, 0x1000000000000001b, 64u32) == 0xb3fcc2ab3699fc73,
        mulbv(0xb3fcc2ab3699fc73, 0xb3fcc2ab3699fc73, 0x1000000000000001b, 64u32) == 0xb2644136253abfe8,
        mulbv(0xb2644136253abfe8, 0xb2644136253abfe8, 0x1000000000000001b, 64u32) == 0xb37cd8f5f54e22c6,
        mulbv(0xb37cd8f5f54e22c6, 0xb37cd8f5f54e22c6, 0x1000000000000001b, 64u32) == 0xe267d02369c356e5,
        mulbv(0xe267d02369c356e5, 0xe267d02369c356e5, 0x1000000000000001b, 64u32) == 0x82c8dc57a143827,
        mulbv(0x82c8dc57a143827, 0x82c8dc57a143827, 0x1000000000000001b, 64u32) == 0x13846a66c22c75be,
        mulbv(0x13846a66c22c75be, 0x13846a66c22c75be, 0x1000000000000001b, 64u32) == 0x4b75c5e1cfbc9888,
        mulbv(0x4b75c5e1cfbc9888, 0x4b75c5e1cfbc9888, 0x1000000000000001b, 64u32) == 0xe6e383fc30ec5c40,
        mulbv(0xe6e383fc30ec5c40, 0xe6e383fc30ec5c40, 0x1000000000000001b, 64u32) == 0x18db4821d1201031,
        mulbv(0x18db4821d1201031, 0x18db4821d1201031, 0x1000000000000001b, 64u32) == 0x4cc669b6b7c0691a,
        mulbv(0x4cc669b6b7c0691a, 0x4cc669b6b7c0691a, 0x1000000000000001b, 64u32) == 0xf26221ddce9cb783,
        mulbv(0xf26221ddce9cb783, 0xf26221ddce9cb783, 0x1000000000000001b, 64u32) == 0x57399d3c29092c2f,
        mulbv(0x57399d3c29092c2f, 0x57399d3c29092c2f, 0x1000000000000001b, 64u32) == 0xae86719cd83b743e,
        mulbv(0xae86719cd83b743e, 0xae86719cd83b743e, 0x1000000000000001b, 64u32) == 0xfa5ac498d20dd97e,
        mulbv(0xfa5ac498d20dd97e, 0xfa5ac498d20dd97e, 0x1000000000000001b, 64u32) == 0x50a9adfa20f7c8d5,
        mulbv(0x50a9adfa20f7c8d5, 0x50a9adfa20f7c8d5, 0x1000000000000001b, 64u32) == 0xaf06ffc8fb2c50a6,
        mulbv(0xaf06ffc8fb2c50a6, 0xaf06ffc8fb2c50a6, 0x1000000000000001b, 64u32) == 0xfe42058b1100328e,
        mulbv(0xfe42058b1100328e, 0xfe42058b1100328e, 0x1000000000000001b, 64u32) == 0x11cb06c04a986a2,
        mulbv(0x11cb06c04a986a2, 0x11cb06c04a986a2, 0x1000000000000001b, 64u32) == 0xb5837f7159f74,
        mulbv(0xb5837f7159f74, 0xb5837f7159f74, 0x1000000000000001b, 64u32) == 0x551507a7ec9563d7,
        mulbv(0x551507a7ec9563d7, 0x551507a7ec9563d7, 0x1000000000000001b, 64u32) == 0xfefb5bba15c4fcc9,
        mulbv(0xfefb5bba15c4fcc9, 0xfefb5bba15c4fcc9, 0x1000000000000001b, 64u32) == 0x10a51a6f8e1e1ac,
        mulbv(0x10a51a6f8e1e1ac, 0x10a51a6f8e1e1ac, 0x1000000000000001b, 64u32) == 0x555b52acff1ce98c,
        mulbv(0x555b52acff1ce98c, 0x555b52acff1ce98c, 0x1000000000000001b, 64u32) == 0xfffface6ff2beb3b,
        mulbv(0xfffface6ff2beb3b, 0xfffface6ff2beb3b, 0x1000000000000001b, 64u32) == 0x55550444ff3218d8,
        mulbv(0x55550444ff3218d8, 0x55550444ff3218d8, 0x1000000000000001b, 64u32) == 0xffffafaf00f1e0eb,
        mulbv(0xffffafaf00f1e0eb, 0xffffafaf00f1e0eb, 0x1000000000000001b, 64u32) == 0x5500ff01ff03,
        mulbv(0x5500ff01ff03, 0x5500ff01ff03, 0x1000000000000001b, 64u32) == 0x55550000fffe0005,
        mulbv(0x55550000fffe0005, 0x55550000fffe0005, 0x1000000000000001b, 64u32) == 0xffffffff0000000a,
        mulbv(0x2, 0x4, 0x1000000000000001b, 64u32) == 0x8,
        mulbv(0x8, 0x10, 0x1000000000000001b, 64u32) == 0x80,
        mulbv(0x80, 0x100, 0x1000000000000001b, 64u32) == 0x8000,
        mulbv(0x8000, 0x10000, 0x1000000000000001b, 64u32) == 0x80000000,
        mulbv(0x80000000, 0x100000000, 0x1000000000000001b, 64u32) == 0x8000000000000000,
        mulbv(0x8000000000000000, 0x1b, 0x1000000000000001b, 64u32) == 0x80000000000000af,
        mulbv(0x80000000000000af, 0x145, 0x1000000000000001b, 64u32) == 0x8000000000008805,
        mulbv(0x8000000000008805, 0x11011, 0x1000000000000001b, 64u32) == 0x800000008080008d,
        mulbv(0x800000008080008d, 0x101000101, 0x1000000000000001b, 64u32) == 0x80000000800d,
        mulbv(0x80000000800d, 0x100000001001a, 0x1000000000000001b, 64u32) == 0xd000000a2,
        mulbv(0xd000000a2, 0x1a00000144, 0x1000000000000001b, 64u32) == 0x86de,
        mulbv(0x86de, 0x10dbc, 0x1000000000000001b, 64u32) == 0x8028a2a8,
        mulbv(0x8028a2a8, 0x100514550, 0x1000000000000001b, 64u32) == 0x8000088088088880,
        mulbv(0x8000088088088880, 0x11011011111b, 0x1000000000000001b, 64u32) == 0x8000808d0d00af,
        mulbv(0x8000808d0d00af, 0x10001011a1a015e, 0x1000000000000001b, 64u32) == 0x80af80a2000d08aa,
        mulbv(0x80af80a2000d08aa, 0x15f0144001a114f, 0x1000000000000001b, 64u32) == 0x800d56a1808dd0ff,
        mulbv(0x800d56a1808dd0ff, 0x1aad43011ba1e5, 0x1000000000000001b, 64u32) == 0x8e77f7b5f233,
        mulbv(0x8e77f7b5f233, 0x11cefef6be466, 0x1000000000000001b, 64u32) == 0xaa2a8a2f24338784,
        mulbv(0xaa2a8a2f24338784, 0x5455145e48670f13, 0x1000000000000001b, 64u32) == 0x5d78df5f0d725681,
        mulbv(0x5d78df5f0d725681, 0xbaf1bebe1ae4ad02, 0x1000000000000001b, 64u32) == 0x5877a986fa25d821,
        mulbv(0x5877a986fa25d821, 0xb0ef530df44bb042, 0x1000000000000001b, 64u32) == 0xf10b85a1f73b8b97,
        mulbv(0xf10b85a1f73b8b97, 0xe2170b43ee771735, 0x1000000000000001b, 64u32) == 0xa41c07e903d1da9e,
        mulbv(0xa41c07e903d1da9e, 0x48380fd207a3b527, 0x1000000000000001b, 64u32) == 0x5b6a9ae2a108b7b1,
        mulbv(0x5b6a9ae2a108b7b1, 0xb6d535c542116f62, 0x1000000000000001b, 64u32) == 0xd36fb5d5317cb2f7,
        mulbv(0xd36fb5d5317cb2f7, 0xa6df6baa62f965f5, 0x1000000000000001b, 64u32) == 0xdcef9ca3e7507ffe,
        mulbv(0xdcef9ca3e7507ffe, 0xb9df3947cea0ffe7, 0x1000000000000001b, 64u32) == 0x70c414039247f2c4,
        mulbv(0x70c414039247f2c4, 0xe1882807248fe588, 0x1000000000000001b, 64u32) == 0xc06c34a9f68a0e3,
        mulbv(0xc06c34a9f68a0e3, 0x180d86953ed141c6, 0x1000000000000001b, 64u32) == 0x8c4a2b3668edc552,
        mulbv(0x8c4a2b3668edc552, 0x1894566cd1db8abf, 0x1000000000000001b, 64u32) == 0xa663c5fa754ccf1f,
        mulbv(0xa663c5fa754ccf1f, 0x4cc78bf4ea999e25, 0x1000000000000001b, 64u32) == 0x7199984043f2015d,
        mulbv(0x7199984043f2015d, 0xe333308087e402ba, 0x1000000000000001b, 64u32) == 0xae3111b3bb81428f,
        mulbv(0xae3111b3bb81428f, 0x5c62236777028505, 0x1000000000000001b, 64u32) == 0xdcb26e341633eeeb,
        mulbv(0xdcb26e341633eeeb, 0xb964dc682c67ddcd, 0x1000000000000001b, 64u32) == 0xdac564d11e904568,
        mulbv(0xdac564d11e904568, 0xb58ac9a23d208acb, 0x1000000000000001b, 64u32) == 0xd9fe61559b4cfe34,
        mulbv(0xd9fe61559b4cfe34, 0xb3fcc2ab3699fc73, 0x1000000000000001b, 64u32) == 0x5932209b129d5ff4,
        mulbv(0x5932209b129d5ff4, 0xb2644136253abfe8, 0x1000000000000001b, 64u32) == 0x59be6c7afaa71163,
        mulbv(0x59be6c7afaa71163, 0xb37cd8f5f54e22c6, 0x1000000000000001b, 64u32) == 0xf133e811b4e1ab7f,
        mulbv(0xf133e811b4e1ab7f, 0xe267d02369c356e5, 0x1000000000000001b, 64u32) == 0x841646e2bd0a1c1e,
        mulbv(0x841646e2bd0a1c1e, 0x82c8dc57a143827, 0x1000000000000001b, 64u32) == 0x9c2353361163adf,
        mulbv(0x9c2353361163adf, 0x13846a66c22c75be, 0x1000000000000001b, 64u32) == 0x25bae2f0e7de4c44,
        mulbv(0x25bae2f0e7de4c44, 0x4b75c5e1cfbc9888, 0x1000000000000001b, 64u32) == 0x7371c1fe18762e20,
        mulbv(0x7371c1fe18762e20, 0xe6e383fc30ec5c40, 0x1000000000000001b, 64u32) == 0x8c6da410e8900815,
        mulbv(0x8c6da410e8900815, 0x18db4821d1201031, 0x1000000000000001b, 64u32) == 0x266334db5be0348d,
        mulbv(0x266334db5be0348d, 0x4cc669b6b7c0691a, 0x1000000000000001b, 64u32) == 0xf93110eee74e5bcc,
        mulbv(0xf93110eee74e5bcc, 0xf26221ddce9cb783, 0x1000000000000001b, 64u32) == 0xab9cce9e1484961a,
        mulbv(0xab9cce9e1484961a, 0x57399d3c29092c2f, 0x1000000000000001b, 64u32) == 0x574338ce6c1dba1f,
        mulbv(0x574338ce6c1dba1f, 0xae86719cd83b743e, 0x1000000000000001b, 64u32) == 0x7d2d624c6906ecbf,
        mulbv(0x7d2d624c6906ecbf, 0xfa5ac498d20dd97e, 0x1000000000000001b, 64u32) == 0xa854d6fd107be467,
        mulbv(0xa854d6fd107be467, 0x50a9adfa20f7c8d5, 0x1000000000000001b, 64u32) == 0x57837fe47d962853,
        mulbv(0x57837fe47d962853, 0xaf06ffc8fb2c50a6, 0x1000000000000001b, 64u32) == 0x7f2102c588801947,
        mulbv(0x7f2102c588801947, 0xfe42058b1100328e, 0x1000000000000001b, 64u32) == 0x8e58360254c351,
        mulbv(0x8e58360254c351, 0x11cb06c04a986a2, 0x1000000000000001b, 64u32) == 0x5ac1bfb8acfba,
        mulbv(0x5ac1bfb8acfba, 0xb5837f7159f74, 0x1000000000000001b, 64u32) == 0xaa8a83d3f64ab1e6,
        mulbv(0xaa8a83d3f64ab1e6, 0x551507a7ec9563d7, 0x1000000000000001b, 64u32) == 0xff7daddd0ae27e69,
        mulbv(0xff7daddd0ae27e69, 0xfefb5bba15c4fcc9, 0x1000000000000001b, 64u32) == 0x8528d37c70f0d6,
        mulbv(0x8528d37c70f0d6, 0x10a51a6f8e1e1ac, 0x1000000000000001b, 64u32) == 0x2aada9567f8e74c6,
        mulbv(0x2aada9567f8e74c6, 0x555b52acff1ce98c, 0x1000000000000001b, 64u32) == 0xffffd6737f95f590,
        mulbv(0xffffd6737f95f590, 0xfffface6ff2beb3b, 0x1000000000000001b, 64u32) == 0x2aaa82227f990c6c,
        mulbv(0x2aaa82227f990c6c, 0x55550444ff3218d8, 0x1000000000000001b, 64u32) == 0xffffd7d78078f078,
        mulbv(0xffffd7d78078f078, 0xffffafaf00f1e0eb, 0x1000000000000001b, 64u32) == 0x80002a807f80ff8c,
        mulbv(0x80002a807f80ff8c, 0x5500ff01ff03, 0x1000000000000001b, 64u32) == 0xaaaa80007fff000f,
        mulbv(0xaaaa80007fff000f, 0x55550000fffe0005, 0x1000000000000001b, 64u32) == 0x7fffffff80000005,
        mulbv(0x7fffffff80000005, 0xffffffff0000000a, 0x1000000000000001b, 64u32) == 0x1,
        mulbv(0x2, 0x10, 0x1000000000000001b, 64u32) == 0x20,
        mulbv(0x20, 0x10000, 0x1000000000000001b, 64u32) == 0x200000,
        mulbv(0x200000, 0x1b, 0x1000000000000001b, 64u32) == 0x3600000,
        mulbv(0x3600000, 0x11011, 0x1000000000000001b, 64u32) == 0x35635600000,
        mulbv(0x35635600000, 0x100000001001a, 0x1000000000000001b, 64u32) == 0x3561c1ebde8a2a0,
        mulbv(0x3561c1ebde8a2a0, 0x10dbc, 0x1000000000000001b, 64u32) == 0x41d6f1a022b5ba6d,
        mulbv(0x41d6f1a022b5ba6d, 0x11011011111b, 0x1000000000000001b, 64u32) == 0x4d6819025c80cd7f,
        mulbv(0x4d6819025c80cd7f, 0x15f0144001a114f, 0x1000000000000001b, 64u32) == 0x7b1a63ddb974e8a7,
        mulbv(0x7b1a63ddb974e8a7, 0x11cefef6be466, 0x1000000000000001b, 64u32) == 0x3ee07b8050d485b,
        mulbv(0x3ee07b8050d485b, 0xbaf1bebe1ae4ad02, 0x1000000000000001b, 64u32) == 0x2013834b36deef4,
        mulbv(0x2013834b36deef4, 0xe2170b43ee771735, 0x1000000000000001b, 64u32) == 0x6b7737963d69e575,
        mulbv(0x6b7737963d69e575, 0xb6d535c542116f62, 0x1000000000000001b, 64u32) == 0xd0089980767f2112,
        mulbv(0xd0089980767f2112, 0xb9df3947cea0ffe7, 0x1000000000000001b, 64u32) == 0x22ba97c096e196e1,
        mulbv(0x22ba97c096e196e1, 0x180d86953ed141c6, 0x1000000000000001b, 64u32) == 0x545f2216337b556c,
        mulbv(0x545f2216337b556c, 0x4cc78bf4ea999e25, 0x1000000000000001b, 64u32) == 0x7ca147cf631de25d,
        mulbv(0x7ca147cf631de25d, 0x5c62236777028505, 0x1000000000000001b, 64u32) == 0x7d412ec37efd4d4e,
        mulbv(0x7d412ec37efd4d4e, 0xb58ac9a23d208acb, 0x1000000000000001b, 64u32) == 0xffdcc0be1355675a,
        mulbv(0xffdcc0be1355675a, 0xb2644136253abfe8, 0x1000000000000001b, 64u32) == 0x2816015f08d7b93a,
        mulbv(0x2816015f08d7b93a, 0xe267d02369c356e5, 0x1000000000000001b, 64u32) == 0x9577a289e5e2cd91,
        mulbv(0x9577a289e5e2cd91, 0x13846a66c22c75be, 0x1000000000000001b, 64u32) == 0x249569e936fc63f9,
        mulbv(0x249569e936fc63f9, 0xe6e383fc30ec5c40, 0x1000000000000001b, 64u32) == 0x1525fa57aeaa81fd,
        mulbv(0x1525fa57aeaa81fd, 0x4cc669b6b7c0691a, 0x1000000000000001b, 64u32) == 0x783488ae7f12b785,
        mulbv(0x783488ae7f12b785, 0x57399d3c29092c2f, 0x1000000000000001b, 64u32) == 0x5567175f25096c72,
        mulbv(0x5567175f25096c72, 0xfa5ac498d20dd97e, 0x1000000000000001b, 64u32) == 0x569de14852598197,
        mulbv(0x569de14852598197, 0xaf06ffc8fb2c50a6, 0x1000000000000001b, 64u32) == 0x41c0dabc44fc76d1,
        mulbv(0x41c0dabc44fc76d1, 0x11cb06c04a986a2, 0x1000000000000001b, 64u32) == 0x7280844873577da9,
        mulbv(0x7280844873577da9, 0x551507a7ec9563d7, 0x1000000000000001b, 64u32) == 0x74fb1e007c3eb4e4,
        mulbv(0x74fb1e007c3eb4e4, 0x10a51a6f8e1e1ac, 0x1000000000000001b, 64u32) == 0xf4623b2e214e38e6,
        mulbv(0xf4623b2e214e38e6, 0xfffface6ff2beb3b, 0x1000000000000001b, 64u32) == 0x2af5c424e44ac302,
        mulbv(0x2af5c424e44ac302, 0xffffafaf00f1e0eb, 0x1000000000000001b, 64u32) == 0xe837e94c1d14bfa0,
        mulbv(0xe837e94c1d14bfa0, 0x55550000fffe0005, 0x1000000000000001b, 64u32) == 0x19c9369f278adc02,
        mulbv(0x8, 0x10000, 0x1000000000000001b, 64u32) == 0x80000,
        mulbv(0x80000, 0x100000000, 0x1000000000000001b, 64u32) == 0x8000000000000,
        mulbv(0x8000000000000, 0x11011, 0x1000000000000001b, 64u32) == 0x80880000000000d8,
        mulbv(0x80880000000000d8, 0x101000101, 0x1000000000000001b, 64u32) == 0x88800d558d58d58,
        mulbv(0x88800d558d58d58, 0x10dbc, 0x1000000000000001b, 64u32) == 0x53300a85fa5fa52d,
        mulbv(0x53300a85fa5fa52d, 0x100514550, 0x1000000000000001b, 64u32) == 0xf47888c318a0b9f7,
        mulbv(0xf47888c318a0b9f7, 0x15f0144001a114f, 0x1000000000000001b, 64u32) == 0x4d9572d59b46f08f,
        mulbv(0x4d9572d59b46f08f, 0x1aad43011ba1e5, 0x1000000000000001b, 64u32) == 0xc082b3fb3d120f8e,
        mulbv(0xc082b3fb3d120f8e, 0xbaf1bebe1ae4ad02, 0x1000000000000001b, 64u32) == 0x653b8fa106eef761,
        mulbv(0x653b8fa106eef761, 0xb0ef530df44bb042, 0x1000000000000001b, 64u32) == 0xf7aeba4d1afd0f13,
        mulbv(0xf7aeba4d1afd0f13, 0xb6d535c542116f62, 0x1000000000000001b, 64u32) == 0xf09bd776ba743bcc,
        mulbv(0xf09bd776ba743bcc, 0xa6df6baa62f965f5, 0x1000000000000001b, 64u32) == 0x6a4746c6baa52e01,
        mulbv(0x6a4746c6baa52e01, 0x180d86953ed141c6, 0x1000000000000001b, 64u32) == 0xde15e551e213813f,
        mulbv(0xde15e551e213813f, 0x1894566cd1db8abf, 0x1000000000000001b, 64u32) == 0x41b9c24f609737ab,
        mulbv(0x41b9c24f609737ab, 0x5c62236777028505, 0x1000000000000001b, 64u32) == 0x195f84043832972b,
        mulbv(0x195f84043832972b, 0xb964dc682c67ddcd, 0x1000000000000001b, 64u32) == 0x681901f571a8c0bf,
        mulbv(0x681901f571a8c0bf, 0xb2644136253abfe8, 0x1000000000000001b, 64u32) == 0x5481d489c86c40de,
        mulbv(0x5481d489c86c40de, 0xb37cd8f5f54e22c6, 0x1000000000000001b, 64u32) == 0xee9eb17ff8f7a244,
        mulbv(0xee9eb17ff8f7a244, 0x13846a66c22c75be, 0x1000000000000001b, 64u32) == 0x40509bedc810d676,
        mulbv(0x40509bedc810d676, 0x4b75c5e1cfbc9888, 0x1000000000000001b, 64u32) == 0x4176aefdbbb609a9,
        mulbv(0x4176aefdbbb609a9, 0x4cc669b6b7c0691a, 0x1000000000000001b, 64u32) == 0xd6a9956880454180,
        mulbv(0xd6a9956880454180, 0xf26221ddce9cb783, 0x1000000000000001b, 64u32) == 0xc05e771a183aa2e6,
        mulbv(0xc05e771a183aa2e6, 0xfa5ac498d20dd97e, 0x1000000000000001b, 64u32) == 0xcf1fd7bdba955bed,
        mulbv(0xcf1fd7bdba955bed, 0x50a9adfa20f7c8d5, 0x1000000000000001b, 64u32) == 0x8fbe83b5e9df6842,
        mulbv(0x8fbe83b5e9df6842, 0x11cb06c04a986a2, 0x1000000000000001b, 64u32) == 0x3673d304828c09c2,
        mulbv(0x3673d304828c09c2, 0xb5837f7159f74, 0x1000000000000001b, 64u32) == 0xf622f9cb6b64b253,
        mulbv(0xf622f9cb6b64b253, 0x10a51a6f8e1e1ac, 0x1000000000000001b, 64u32) == 0xb1f4d5f6932ab464,
        mulbv(0xb1f4d5f6932ab464, 0x555b52acff1ce98c, 0x1000000000000001b, 64u32) == 0x56adceacd237aff9,
        mulbv(0x56adceacd237aff9, 0xffffafaf00f1e0eb, 0x1000000000000001b, 64u32) == 0x2a845da1db741026,
        mulbv(0x2a845da1db741026, 0x5500ff01ff03, 0x1000000000000001b, 64u32) == 0x5db84357ce785d09,
        mulbv(0x8000, 0x11011, 0x1000000000000001b, 64u32) == 0x88088000,
        mulbv(0x88088000, 0x101000101, 0x1000000000000001b, 64u32) == 0x8880880880888000,
        mulbv(0x8880880880888000, 0x100000001001a, 0x1000000000000001b, 64u32) == 0xd50805d8d505d877,
        mulbv(0xd50805d8d505d877, 0x1a00000144, 0x1000000000000001b, 64u32) == 0x4c5c4d4c5c4dc26f,
        mulbv(0x4c5c4d4c5c4dc26f, 0x15f0144001a114f, 0x1000000000000001b, 64u32) == 0x8aaafd2254247031,
        mulbv(0x8aaafd2254247031, 0x1aad43011ba1e5, 0x1000000000000001b, 64u32) == 0x2857c01f8207d6ed,
        mulbv(0x2857c01f8207d6ed, 0x11cefef6be466, 0x1000000000000001b, 64u32) == 0xb8c2ac33e9adea53,
        mulbv(0xb8c2ac33e9adea53, 0x5455145e48670f13, 0x1000000000000001b, 64u32) == 0xfd7b5585b14f5003,
        mulbv(0xfd7b5585b14f5003, 0xb6d535c542116f62, 0x1000000000000001b, 64u32) == 0x5bd560f75a5f3842,
        mulbv(0x5bd560f75a5f3842, 0xa6df6baa62f965f5, 0x1000000000000001b, 64u32) == 0x7f2547ed34ee3e85,
        mulbv(0x7f2547ed34ee3e85, 0xb9df3947cea0ffe7, 0x1000000000000001b, 64u32) == 0xed5a063c3218c385,
        mulbv(0xed5a063c3218c385, 0xe1882807248fe588, 0x1000000000000001b, 64u32) == 0x7c207a0ebb35fb24,
        mulbv(0x7c207a0ebb35fb24, 0x5c62236777028505, 0x1000000000000001b, 64u32) == 0xca441d9a7eab34b5,
        mulbv(0xca441d9a7eab34b5, 0xb964dc682c67ddcd, 0x1000000000000001b, 64u32) == 0x9f5a3b101a16694a,
        mulbv(0x9f5a3b101a16694a, 0xb58ac9a23d208acb, 0x1000000000000001b, 64u32) == 0x1143686752db7d21,
        mulbv(0x1143686752db7d21, 0xb3fcc2ab3699fc73, 0x1000000000000001b, 64u32) == 0x35de344d4233f25f,
        mulbv(0x35de344d4233f25f, 0x13846a66c22c75be, 0x1000000000000001b, 64u32) == 0x63d777ef0eb8598c,
        mulbv(0x63d777ef0eb8598c, 0x4b75c5e1cfbc9888, 0x1000000000000001b, 64u32) == 0x2ce4a06e9386a40d,
        mulbv(0x2ce4a06e9386a40d, 0xe6e383fc30ec5c40, 0x1000000000000001b, 64u32) == 0x58ee6afea95fdbe2,
        mulbv(0x58ee6afea95fdbe2, 0x18db4821d1201031, 0x1000000000000001b, 64u32) == 0x6317da202446dfe3,
        mulbv(0x6317da202446dfe3, 0xfa5ac498d20dd97e, 0x1000000000000001b, 64u32) == 0x550e43ee1ba9c713,
        mulbv(0x550e43ee1ba9c713, 0x50a9adfa20f7c8d5, 0x1000000000000001b, 64u32) == 0x47297d74a9a84c47,
        mulbv(0x47297d74a9a84c47, 0xaf06ffc8fb2c50a6, 0x1000000000000001b, 64u32) == 0xc23eda6603d1827e,
        mulbv(0xc23eda6603d1827e, 0xfe42058b1100328e, 0x1000000000000001b, 64u32) == 0xb911f05905bf6e4b,
        mulbv(0xb911f05905bf6e4b, 0x10a51a6f8e1e1ac, 0x1000000000000001b, 64u32) == 0x5af9e4498fb3dbac,
        mulbv(0x5af9e4498fb3dbac, 0x555b52acff1ce98c, 0x1000000000000001b, 64u32) == 0x730f8f09bb7f83d4,
        mulbv(0x730f8f09bb7f83d4, 0xfffface6ff2beb3b, 0x1000000000000001b, 64u32) == 0x4e6753035fa63085,
        mulbv(0x4e6753035fa63085, 0x55550444ff3218d8, 0x1000000000000001b, 64u32) == 0xcf7b828f270c0db,
        mulbv(0x8000000000008805, 0x15f0144001a114f, 0x1000000000000001b, 64u32) == 0xf2ffaa8fd8f07445,
        mulbv(0xf2ffaa8fd8f07445, 0x1aad43011ba1e5, 0x1000000000000001b, 64u32) == 0x282f7cbf4eae4c78,
        mulbv(0x282f7cbf4eae4c78, 0x11cefef6be466, 0x1000000000000001b, 64u32) == 0x98d957d329fd8933,
        mulbv(0x98d957d329fd8933, 0x5455145e48670f13, 0x1000000000000001b, 64u32) == 0xe74dcd2eed6a4e52,
        mulbv(0xe74dcd2eed6a4e52, 0xbaf1bebe1ae4ad02, 0x1000000000000001b, 64u32) == 0x4603d8dcf8b3a858,
        mulbv(0x4603d8dcf8b3a858, 0xb0ef530df44bb042, 0x1000000000000001b, 64u32) == 0xdb95dc986e28d155,
        mulbv(0xdb95dc986e28d155, 0xe2170b43ee771735, 0x1000000000000001b, 64u32) == 0x2ffabcd8435a3bdb,
        mulbv(0x2ffabcd8435a3bdb, 0x48380fd207a3b527, 0x1000000000000001b, 64u32) == 0xc57e5fd53bdca067,
        mulbv(0xc57e5fd53bdca067, 0x5c62236777028505, 0x1000000000000001b, 64u32) == 0xc0ef417f5a29effd,
        mulbv(0xc0ef417f5a29effd, 0xb964dc682c67ddcd, 0x1000000000000001b, 64u32) == 0xeb21b212fb5bb538,
        mulbv(0xeb21b212fb5bb538, 0xb58ac9a23d208acb, 0x1000000000000001b, 64u32) == 0x2298fb450fa8a50,
        mulbv(0x2298fb450fa8a50, 0xb3fcc2ab3699fc73, 0x1000000000000001b, 64u32) == 0x689258ddfb15a9bb,
        mulbv(0x689258ddfb15a9bb, 0xb2644136253abfe8, 0x1000000000000001b, 64u32) == 0xc7403a60c32e4cda,
        mulbv(0xc7403a60c32e4cda, 0xb37cd8f5f54e22c6, 0x1000000000000001b, 64u32) == 0x533ff117791afa6,
        mulbv(0x533ff117791afa6, 0xe267d02369c356e5, 0x1000000000000001b, 64u32) == 0x1409573ac026c212,
        mulbv(0x1409573ac026c212, 0x82c8dc57a143827, 0x1000000000000001b, 64u32) == 0x24035a3f6ee0b086,
        mulbv(0x24035a3f6ee0b086, 0xfa5ac498d20dd97e, 0x1000000000000001b, 64u32) == 0xad04989631ec2e10,
        mulbv(0xad04989631ec2e10, 0x50a9adfa20f7c8d5, 0x1000000000000001b, 64u32) == 0xb49524706eaf213c,
        mulbv(0xb49524706eaf213c, 0xaf06ffc8fb2c50a6, 0x1000000000000001b, 64u32) == 0xbbe5abf8f2af6fed,
        mulbv(0xbbe5abf8f2af6fed, 0xfe42058b1100328e, 0x1000000000000001b, 64u32) == 0xde685df95db8caca,
        mulbv(0xde685df95db8caca, 0x11cb06c04a986a2, 0x1000000000000001b, 64u32) == 0xadedb053e21b3270,
        mulbv(0xadedb053e21b3270, 0xb5837f7159f74, 0x1000000000000001b, 64u32) == 0x6aa23f85e8bfe563,
        mulbv(0x6aa23f85e8bfe563, 0x551507a7ec9563d7, 0x1000000000000001b, 64u32) == 0x595f4d0366e98863,
        mulbv(0x595f4d0366e98863, 0xfefb5bba15c4fcc9, 0x1000000000000001b, 64u32) == 0x56dfcf872019d0c1,
        mulbv(0x80000000000000af, 0x101000101, 0x1000000000000001b, 64u32) == 0x800000a22280a22f,
        mulbv(0x800000a22280a22f, 0x11011011111b, 0x1000000000000001b, 64u32) == 0xa226d5f9e7d100,
        mulbv(0xa226d5f9e7d100, 0x10001011a1a015e, 0x1000000000000001b, 64u32) == 0xd591c703b40e3d84,
        mulbv(0xd591c703b40e3d84, 0x15f0144001a114f, 0x1000000000000001b, 64u32) == 0x1f0ab472bf5ef1d7,
        mulbv(0x1f0ab472bf5ef1d7, 0x5455145e48670f13, 0x1000000000000001b, 64u32) == 0x350d51bf2876b237,
        mulbv(0x350d51bf2876b237, 0xbaf1bebe1ae4ad02, 0x1000000000000001b, 64u32) == 0x53d700627a7f2312,
        mulbv(0x53d700627a7f2312, 0x48380fd207a3b527, 0x1000000000000001b, 64u32) == 0x8bec31535a6326e9,
        mulbv(0x8bec31535a6326e9, 0xb6d535c542116f62, 0x1000000000000001b, 64u32) == 0x3e7ee234547a61a6,
        mulbv(0x3e7ee234547a61a6, 0xa6df6baa62f965f5, 0x1000000000000001b, 64u32) == 0x9864248c3e7b9af3,
        mulbv(0x9864248c3e7b9af3, 0xb9df3947cea0ffe7, 0x1000000000000001b, 64u32) == 0x61427ee6c4d8ac46,
        mulbv(0x61427ee6c4d8ac46, 0xe1882807248fe588, 0x1000000000000001b, 64u32) == 0x7877e2d17555efeb,
        mulbv(0x7877e2d17555efeb, 0x180d86953ed141c6, 0x1000000000000001b, 64u32) == 0x79168a8a1d18cd9,
        mulbv(0x79168a8a1d18cd9, 0x1894566cd1db8abf, 0x1000000000000001b, 64u32) == 0xb3f9dd78c5d9c4cc,
        mulbv(0xb3f9dd78c5d9c4cc, 0x4cc78bf4ea999e25, 0x1000000000000001b, 64u32) == 0x62ae4d9ab7017409,
        mulbv(0x62ae4d9ab7017409, 0xe333308087e402ba, 0x1000000000000001b, 64u32) == 0x1c4ad2cc7dbca94e,
        mulbv(0x1c4ad2cc7dbca94e, 0x82c8dc57a143827, 0x1000000000000001b, 64u32) == 0xcdca83dd7f3a2517,
        mulbv(0xcdca83dd7f3a2517, 0x13846a66c22c75be, 0x1000000000000001b, 64u32) == 0x7842603ae69de253,
        mulbv(0x7842603ae69de253, 0xe6e383fc30ec5c40, 0x1000000000000001b, 64u32) == 0xb6d2aa04e58e92a8,
        mulbv(0xb6d2aa04e58e92a8, 0x18db4821d1201031, 0x1000000000000001b, 64u32) == 0x54039c643786b509,
        mulbv(0x54039c643786b509, 0x4cc669b6b7c0691a, 0x1000000000000001b, 64u32) == 0x8d28cfdcbb211576,
        mulbv(0x8d28cfdcbb211576, 0xf26221ddce9cb783, 0x1000000000000001b, 64u32) == 0xe46321017b197950,
        mulbv(0xe46321017b197950, 0x50a9adfa20f7c8d5, 0x1000000000000001b, 64u32) == 0x53cd6b38cac9e6b5,
        mulbv(0x53cd6b38cac9e6b5, 0xaf06ffc8fb2c50a6, 0x1000000000000001b, 64u32) == 0x5c7e8b427941dc3,
        mulbv(0x5c7e8b427941dc3, 0xb5837f7159f74, 0x1000000000000001b, 64u32) == 0x222fab200cfc6324,
        mulbv(0x222fab200cfc6324, 0x551507a7ec9563d7, 0x1000000000000001b, 64u32) == 0x6bf808f7824282a2,
        mulbv(0x80af80a2000d08aa, 0x5c62236777028505, 0x1000000000000001b, 64u32) == 0x7d24f5cc3e6ef67b,
        mulbv(0x7d24f5cc3e6ef67b, 0xb964dc682c67ddcd, 0x1000000000000001b, 64u32) == 0x6ff8cc7b2e17ea73,
        mulbv(0x6ff8cc7b2e17ea73, 0xb58ac9a23d208acb, 0x1000000000000001b, 64u32) == 0x175ddea8a7ea78c9,
        mulbv(0x175ddea8a7ea78c9, 0xb3fcc2ab3699fc73, 0x1000000000000001b, 64u32) == 0x1312aab3f0eba71f,
        mulbv(0x1312aab3f0eba71f, 0xb2644136253abfe8, 0x1000000000000001b, 64u32) == 0x48f12728c78eedfa,
        mulbv(0x48f12728c78eedfa, 0xb37cd8f5f54e22c6, 0x1000000000000001b, 64u32) == 0xf454d85204d15193,
        mulbv(0xf454d85204d15193, 0xe267d02369c356e5, 0x1000000000000001b, 64u32) == 0x716b295a0c121753,
        mulbv(0x716b295a0c121753, 0x82c8dc57a143827, 0x1000000000000001b, 64u32) == 0x868f536d8bbe94c4,
        mulbv(0x868f536d8bbe94c4, 0x13846a66c22c75be, 0x1000000000000001b, 64u32) == 0xcc2d8c7cc9e9c553,
        mulbv(0xcc2d8c7cc9e9c553, 0x4b75c5e1cfbc9888, 0x1000000000000001b, 64u32) == 0x2b0102670504fd7c,
        mulbv(0x2b0102670504fd7c, 0xe6e383fc30ec5c40, 0x1000000000000001b, 64u32) == 0x184471a8814ab6a0,
        mulbv(0x184471a8814ab6a0, 0x18db4821d1201031, 0x1000000000000001b, 64u32) == 0x1769c844357fd407,
        mulbv(0x1769c844357fd407, 0x4cc669b6b7c0691a, 0x1000000000000001b, 64u32) == 0xa2e97556c3236f42,
        mulbv(0xa2e97556c3236f42, 0xf26221ddce9cb783, 0x1000000000000001b, 64u32) == 0x9eac51c5f521adba,
        mulbv(0x9eac51c5f521adba, 0x57399d3c29092c2f, 0x1000000000000001b, 64u32) == 0xaec7dd65b90bb2ad,
        mulbv(0xaec7dd65b90bb2ad, 0xae86719cd83b743e, 0x1000000000000001b, 64u32) == 0x1c1e79669b95a7ce,
        mulbv(0x80000000000000af, 0x11011, 0x1000000000000001b, 64u32) == 0x8000000000a8a287,
        mulbv(0x8000000000a8a287, 0x100000001001a, 0x1000000000000001b, 64u32) == 0xa28a80a8ac14f7d1,
        mulbv(0xa28a80a8ac14f7d1, 0x1a00000144, 0x1000000000000001b, 64u32) == 0x5bcbac997a7a79ee,
        mulbv(0x5bcbac997a7a79ee, 0x10dbc, 0x1000000000000001b, 64u32) == 0x85898d91d656f2f3,
        mulbv(0x85898d91d656f2f3, 0x100514550, 0x1000000000000001b, 64u32) == 0x108bca09d9b4c5d5,
        mulbv(0x108bca09d9b4c5d5, 0x11011011111b, 0x1000000000000001b, 64u32) == 0x5c376e903edbd6b0,
        mulbv(0x5c376e903edbd6b0, 0x10001011a1a015e, 0x1000000000000001b, 64u32) == 0x60c4892b4e073b8a,
        mulbv(0x60c4892b4e073b8a, 0x15f0144001a114f, 0x1000000000000001b, 64u32) == 0x447bfe2440a8caa5,
        mulbv(0x447bfe2440a8caa5, 0x1aad43011ba1e5, 0x1000000000000001b, 64u32) == 0x87924da53047a518,
        mulbv(0x87924da53047a518, 0x11cefef6be466, 0x1000000000000001b, 64u32) == 0x21572f7eac647c29,
        mulbv(0x21572f7eac647c29, 0x5455145e48670f13, 0x1000000000000001b, 64u32) == 0x9ed5d18dcc0706db,
        mulbv(0x9ed5d18dcc0706db, 0xbaf1bebe1ae4ad02, 0x1000000000000001b, 64u32) == 0xa7a29d54ea25be32,
        mulbv(0xa7a29d54ea25be32, 0xb0ef530df44bb042, 0x1000000000000001b, 64u32) == 0x98e29137bb851e91,
        mulbv(0x98e29137bb851e91, 0xe2170b43ee771735, 0x1000000000000001b, 64u32) == 0x9fddc88a8ef8867b,
        mulbv(0x9fddc88a8ef8867b, 0x48380fd207a3b527, 0x1000000000000001b, 64u32) == 0x67f85d86032f5ad5,
        mulbv(0x67f85d86032f5ad5, 0xb6d535c542116f62, 0x1000000000000001b, 64u32) == 0xea4deb55066515b1,
        mulbv(0xea4deb55066515b1, 0xa6df6baa62f965f5, 0x1000000000000001b, 64u32) == 0x381e6852f9a15394,
        mulbv(0x381e6852f9a15394, 0xb9df3947cea0ffe7, 0x1000000000000001b, 64u32) == 0xb4fe234cd06b9b31,
        mulbv(0xb4fe234cd06b9b31, 0xe1882807248fe588, 0x1000000000000001b, 64u32) == 0x49ea46ee391d3a7c,
        mulbv(0x49ea46ee391d3a7c, 0x180d86953ed141c6, 0x1000000000000001b, 64u32) == 0xf4666fc9d5439071,
        mulbv(0xf4666fc9d5439071, 0x1894566cd1db8abf, 0x1000000000000001b, 64u32) == 0xd1037c7c0aca1c95,
        mulbv(0xd1037c7c0aca1c95, 0x4cc78bf4ea999e25, 0x1000000000000001b, 64u32) == 0x98c412f620b4128b,
        mulbv(0x98c412f620b4128b, 0xe333308087e402ba, 0x1000000000000001b, 64u32) == 0x231c620d05d79c11,
        mulbv(0x231c620d05d79c11, 0x82c8dc57a143827, 0x1000000000000001b, 64u32) == 0x3fac918d91e0bfca,
        mulbv(0x3fac918d91e0bfca, 0x4b75c5e1cfbc9888, 0x1000000000000001b, 64u32) == 0xf542601703f991,
{
}

/// The sizes of `gf2p64`.
pub proof fn lemma_gf2p64_sizes()
    ensures
        exp2(64) == 0x10000000000000000,
        bitlen(0x1000000000000001b) == 65,
{
    lemma_exp2_values();
    assert(exp2(65) == 2 * exp2(64));
    lemma_bitlen_exact(0x1000000000000001b, 65);
}

/// The powers `2^(2^k)` in `gf2p64`.
proof fn gf2p64_squares()
    ensures
        powmod(2, 0x1, 0x1000000000000001b) == 0x2,
        powmod(2, 0x2, 0x1000000000000001b) == 0x4,
        powmod(2, 0x4, 0x1000000000000001b) == 0x10,
        powmod(2, 0x8, 0x1000000000000001b) == 0x100,
        powmod(2, 0x10, 0x1000000000000001b) == 0x10000,
        powmod(2, 0x20, 0x1000000000000001b) == 0x100000000,
        powmod(2, 0x40, 0x1000000000000001b) == 0x1b,
        powmod(2, 0x80, 0x1000000000000001b) == 0x145,
        powmod(2, 0x100, 0x1000000000000001b) == 0x11011,
        powmod(2, 0x200, 0x1000000000000001b) == 0x101000101,
        powmod(2, 0x400, 0x1000000000000001b) == 0x100000001001a,
        powmod(2, 0x800, 0x1000000000000001b) == 0x1a00000144,
        powmod(2, 0x1000, 0x1000000000000001b) == 0x10dbc,
        powmod(2, 0x2000, 0x1000000000000001b) == 0x100514550,
        powmod(2, 0x4000, 0x1000000000000001b) == 0x11011011111b,
        powmod(2, 0x8000, 0x1000000000000001b) == 0x10001011a1a015e,
        powmod(2, 0x10000, 0x1000000000000001b) == 0x15f0144001a114f,
        powmod(2, 0x20000, 0x1000000000000001b) == 0x1aad43011ba1e5,
        powmod(2, 0x40000, 0x1000000000000001b) == 0x11cefef6be466,
        powmod(2, 0x80000, 0x1000000000000001b) == 0x5455145e48670f13,
        powmod(2, 0x100000, 0x1000000000000001b) == 0xbaf1bebe1ae4ad02,
        powmod(2, 0x200000, 0x1000000000000001b) == 0xb0ef530df44bb042,
        powmod(2, 0x400000, 0x1000000000000001b) == 0xe2170b43ee771735,
        powmod(2, 0x800000, 0x1000000000000001b) == 0x48380fd207a3b527,
        powmod(2, 0x1000000, 0x1000000000000001b) == 0xb6d535c542116f62,
        powmod(2, 0x2000000, 0x1000000000000001b) == 0xa6df6baa62f965f5,
        powmod(2, 0x4000000, 0x1000000000000001b) == 0xb9df3947cea0ffe7,
        powmod(2, 0x8000000, 0x1000000000000001b) == 0xe1882807248fe588,
        powmod(2, 0x10000000, 0x1000000000000001b) == 0x180d86953ed141c6,
        powmod(2, 0x20000000, 0x1000000000000001b) == 0x1894566cd1db8abf,
        powmod(2, 0x40000000, 0x1000000000000001b) == 0x4cc78bf4ea999e25,
        powmod(2, 0x80000000, 0x1000000000000001b) == 0xe333308087e402ba,
        powmod(2, 0x100000000, 0x1000000000000001b) == 0x5c62236777028505,
        powmod(2, 0x200000000, 0x1000000000000001b) == 0xb964dc682c67ddcd,
        powmod(2, 0x400000000, 0x1000000000000001b) == 0xb58ac9a23d208acb,
        powmod(2, 0x800000000, 0x1000000000000001b) == 0xb3fcc2ab3699fc73,
        powmod(2, 0x1000000000, 0x1000000000000001b) == 0xb2644136253abfe8,
        powmod(2, 0x2000000000, 0x1000000000000001b) == 0xb37cd8f5f54e22c6,
        powmod(2, 0x4000000000, 0x1000000000000001b) == 0xe267d02369c356e5,
        powmod(2, 0x8000000000, 0x1000000000000001b) == 0x82c8dc57a143827,
        powmod(2, 0x10000000000, 0x1000000000000001b) == 0x13846a66c22c75be,
        powmod(2, 0x20000000000, 0x1000000000000001b) == 0x4b75c5e1cfbc9888,
        powmod(2, 0x40000000000, 0x1000000000000001b) == 0xe6e383fc30ec5c40,
        powmod(2, 0x80000000000, 0x1000000000000001b) == 0x18db4821d1201031,
        powmod(2, 0x100000000000, 0x1000000000000001b) == 0x4cc669b6b7c0691a,
        powmod(2, 0x200000000000, 0x1000000000000001b) == 0xf26221ddce9cb783,
        powmod(2, 0x400000000000, 0x1000000000000001b) == 0x57399d3c29092c2f,
        powmod(2, 0x800000000000, 0x1000000000000001b) == 0xae86719cd83b743e,
        powmod(2, 0x1000000000000, 0x1000000000000001b) == 0xfa5ac498d20dd97e,
        powmod(2, 0x2000000000000, 0x1000000000000001b) == 0x50a9adfa20f7c8d5,
        powmod(2, 0x4000000000000, 0x1000000000000001b) == 0xaf06ffc8fb2c50a6,
        powmod(2, 0x8000000000000, 0x1000000000000001b) == 0xfe42058b1100328e,
        powmod(2, 0x10000000000000, 0x1000000000000001b) == 0x11cb06c04a986a2,
        powmod(2, 0x20000000000000, 0x1000000000000001b) == 0xb5837f7159f74,
        powmod(2, 0x40000000000000, 0x1000000000000001b) == 0x551507a7ec9563d7,
        powmod(2, 0x80000000000000, 0x1000000000000001b) == 0xfefb5bba15c4fcc9,
        powmod(2, 0x100000000000000, 0x1000000000000001b) == 0x10a51a6f8e1e1ac,
        powmod(2, 0x200000000000000, 0x1000000000000001b) == 0x555b52acff1ce98c,
        powmod(2, 0x400000000000000, 0x1000000000000001b) == 0xfffface6ff2beb3b,
        powmod(2, 0x800000000000000, 0x1000000000000001b) == 0x55550444ff3218d8,
        powmod(2, 0x1000000000000000, 0x1000000000000001b) == 0xffffafaf00f1e0eb,
        powmod(2, 0x2000000000000000, 0x1000000000000001b) == 0x5500ff01ff03,
        powmod(2, 0x4000000000000000, 0x1000000000000001b) == 0x55550000fffe0005,
        powmod(2, 0x8000000000000000, 0x1000000000000001b) == 0xffffffff0000000a,
{
    lemma_gf2p64_sizes();
    gf2p64_products();
    lemma_first_power(0x1000000000000001b, 64);
    lemma_powmod_add(2, 0x1, 0x1, 0x1000000000000001b);
    lemma_mulbv(0x2, 0x2, 0x1000000000000001b, 64u32);
    lemma_powmod_add(2, 0x2, 0x2, 0x1000000000000001b);
    lemma_mulbv(0x4, 0x4, 0x1000000000000001b, 64u32);
    lemma_powmod_add(2, 0x4, 0x4, 0x1000000000000001b);
    lemma_mulbv(0x10, 0x10, 0x1000000000000001b, 64u32);
    lemma_powmod_add(2, 0x8, 0x8, 0x1000000000000001b);
    lemma_mulbv(0x100, 0x100, 0x1000000000000001b, 64u32);
    lemma_powmod_add(2, 0x10, 0x10, 0x1000000000000001b);
    lemma_mulbv(0x10000, 0x10000, 0x1000000000000001b, 64u32);
    lemma_powmod_add(2, 0x20, 0x20, 0x1000000000000001b);
    lemma_mulbv(0x100000000, 0x100000000, 0x1000000000000001b, 64u32);
    lemma_powmod_add(2, 0x40, 0x40, 0x1000000000000001b);
    lemma_mulbv(0x1b, 0x1b, 0x1000000000000001b, 64u32);
    lemma_powmod_add(2, 0x80, 0x80, 0x1000000000000001b);
    lemma_mulbv(0x145, 0x145, 0x1000000000000001b, 64u32);
    lemma_powmod_add(2, 0x100, 0x100, 0x1000000000000001b);
    lemma_mulbv(0x11011, 0x11011, 0x1000000000000001b, 64u32);
    lemma_powmod_add(2, 0x200, 0x200, 0x1000000000000001b);
    lemma_mulbv(0x101000101, 0x101000101, 0x1000000000000001b, 64u32);
    lemma_powmod_add(2, 0x400, 0x400, 0x1000000000000001b);
    lemma_mulbv(0x100000001001a, 0x100000001001a, 0x1000000000000001b, 64u32);
    lemma_powmod_add(2, 0x800, 0x800, 0x1000000000000001b);
    lemma_mulbv(0x1a00000144, 0x1a00000144, 0x1000000000000001b, 64u32);
    lemma_powmod_add(2, 0x1000, 0x1000, 0x1000000000000001b);
    lemma_mulbv(0x10dbc, 0x10dbc, 0x1000000000000001b, 64u32);
    lemma_powmod_add(2, 0x2000, 0x2000, 0x1000000000000001b);
    lemma_mulbv(0x100514550, 0x100514550, 0x1000000000000001b, 64u32);
    lemma_powmod_add(2, 0x4000, 0x4000, 0x1000000000000001b);
    lemma_mulbv(0x11011011111b, 0x11011011111b, 0x1000000000000001b, 64u32);
    lemma_powmod_add(2, 0x8000, 0x8000, 0x1000000000000001b);
    lemma_mulbv(0x10001011a1a015e, 0x10001011a1a015e, 0x1000000000000001b, 64u32);
    lemma_powmod_add(2, 0x10000, 0x10000, 0x1000000000000001b);
    lemma_mulbv(0x15f0144001a114f, 0x15f0144001a114f, 0x1000000000000001b, 64u32);
    lemma_powmod_add(2, 0x20000, 0x20000, 0x1000000000000001b);
    lemma_mulbv(0x1aad43011ba1e5, 0x1aad43011ba1e5, 0x1000000000000001b, 64u32);
    lemma_powmod_add(2, 0x40000, 0x40000, 0x1000000000000001b);
    lemma_mulbv(0x11cefef6be466, 0x11cefef6be466, 0x1000000000000001b, 64u32);
    lemma_powmod_add(2, 0x80000, 0x80000, 0x1000000000000001b);
    lemma_mulbv(0x5455145e48670f13, 0x5455145e48670f13, 0x1000000000000001b, 64u32);
    lemma_powmod_add(2, 0x100000, 0x100000, 0x1000000000000001b);
    lemma_mulbv(0xbaf1bebe1ae4ad02, 0xbaf1bebe1ae4ad02, 0x1000000000000001b, 64u32);
    lemma_powmod_add(2, 0x200000, 0x200000, 0x1000000000000001b);
    lemma_mulbv(0xb0ef530df44bb042, 0xb0ef530df44bb042, 0x1000000000000001b, 64u32);
    lemma_powmod_add(2, 0x400000, 0x400000, 0x1000000000000001b);
    lemma_mulbv(0xe2170b43ee771735, 0xe2170b43ee771735, 0x1000000000000001b, 64u32);
    lemma_powmod_add(2, 0x800000, 0x800000, 0x1000000000000001b);
    lemma_mulbv(0x48380fd207a3b527, 0x48380fd207a3b527, 0x1000000000000001b, 64u32);
    lemma_powmod_add(2, 0x1000000, 0x1000000, 0x1000000000000001b);
    lemma_mulbv(0xb6d535c542116f62, 0xb6d535c542116f62, 0x1000000000000001b, 64u32);
    lemma_powmod_add(2, 0x2000000, 0x2000000, 0x1000000000000001b);
    lemma_mulbv(0xa6df6baa62f965f5, 0xa6df6baa62f965f5, 0x1000000000000001b, 64u32);
    lemma_powmod_add(2, 0x4000000, 0x4000000, 0x1000000000000001b);
    lemma_mulbv(0xb9df3947cea0ffe7, 0xb9df3947cea0ffe7, 0x1000000000000001b, 64u32);
    lemma_powmod_add(2, 0x8000000, 0x8000000, 0x1000000000000001b);
    lemma_mulbv(0xe1882807248fe588, 0xe1882807248fe588, 0x1000000000000001b, 64u32);
    lemma_powmod_add(2, 0x10000000, 0x10000000, 0x1000000000000001b);
    lemma_mulbv(0x180d86953ed141c6, 0x180d86953ed141c6, 0x1000000000000001b, 64u32);
    lemma_powmod_add(2, 0x20000000, 0x20000000, 0x1000000000000001b);
    lemma_mulbv(0x1894566cd1db8abf, 0x1894566cd1db8abf, 0x1000000000000001b, 64u32);
    lemma_powmod_add(2, 0x40000000, 0x40000000, 0x1000000000000001b);
    lemma_mulbv(0x4cc78bf4ea999e25, 0x4cc78bf4ea999e25, 0x1000000000000001b, 64u32);
    lemma_powmod_add(2, 0x80000000, 0x80000000, 0x1000000000000001b);
    lemma_mulbv(0xe333308087e402ba, 0xe333308087e402ba, 0x1000000000000001b, 64u32);
    lemma_powmod_add(2, 0x100000000, 0x100000000, 0x1000000000000001b);
    lemma_mulbv(0x5c62236777028505, 0x5c62236777028505, 0x1000000000000001b, 64u32);
    lemma_powmod_add(2, 0x200000000, 0x200000000, 0x1000000000000001b);
    lemma_mulbv(0xb964dc682c67ddcd, 0xb964dc682c67ddcd, 0x1000000000000001b, 64u32);
    lemma_powmod_add(2, 0x400000000, 0x400000000, 0x1000000000000001b);
    lemma_mulbv(0xb58ac9a23d208acb, 0xb58ac9a23d208acb, 0x1000000000000001b, 64u32);
    lemma_powmod_add(2, 0x800000000, 0x800000000, 0x1000000000000001b);
    lemma_mulbv(0xb3fcc2ab3699fc73, 0xb3fcc2ab3699fc73, 0x1000000000000001b, 64u32);
    lemma_powmod_add(2, 0x1000000000, 0x1000000000, 0x1000000000000001b);
    lemma_mulbv(0xb2644136253abfe8, 0xb2644136253abfe8, 0x1000000000000001b, 64u32);
    lemma_powmod_add(2, 0x2000000000, 0x2000000000, 0x1000000000000001b);
    lemma_mulbv(0xb37cd8f5f54e22c6, 0xb37cd8f5f54e22c6, 0x1000000000000001b, 64u32);
    lemma_powmod_add(2, 0x4000000000, 0x4000000000, 0x1000000000000001b);
    lemma_mulbv(0xe267d02369c356e5, 0xe267d02369c356e5, 0x1000000000000001b, 64u32);
    lemma_powmod_add(2, 0x8000000000, 0x8000000000, 0x1000000000000001b);
    lemma_mulbv(0x82c8dc57a143827, 0x82c8dc57a143827, 0x1000000000000001b, 64u32);
    lemma_powmod_add(2, 0x10000000000, 0x10000000000, 0x1000000000000001b);
    lemma_mulbv(0x13846a66c22c75be, 0x13846a66c22c75be, 0x1000000000000001b, 64u32);
    lemma_powmod_add(2, 0x20000000000, 0x20000000000, 0x1000000000000001b);
    lemma_mulbv(0x4b75c5e1cfbc9888, 0x4b75c5e1cfbc9888, 0x1000000000000001b, 64u32);
    lemma_powmod_add(2, 0x40000000000, 0x40000000000, 0x1000000000000001b);
    lemma_mulbv(0xe6e383fc30ec5c40, 0xe6e383fc30ec5c40, 0x1000000000000001b, 64u32);
    lemma_powmod_add(2, 0x80000000000, 0x80000000000, 0x1000000000000001b);
    lemma_mulbv(0x18db4821d1201031, 0x18db4821d1201031, 0x1000000000000001b, 64u32);
    lemma_powmod_add(2, 0x100000000000, 0x100000000000, 0x1000000000000001b);
    lemma_mulbv(0x4cc669b6b7c0691a, 0x4cc669b6b7c0691a, 0x1000000000000001b, 64u32);
    lemma_powmod_add(2, 0x200000000000, 0x200000000000, 0x1000000000000001b);
    lemma_mulbv(0xf26221ddce9cb783, 0xf26221ddce9cb783, 0x1000000000000001b, 64u32);
    lemma_powmod_add(2, 0x400000000000, 0x400000000000, 0x1000000000000001b);
    lemma_mulbv(0x57399d3c29092c2f, 0x57399d3c29092c2f, 0x1000000000000001b, 64u32);
    lemma_powmod_add(2, 0x800000000000, 0x800000000000, 0x1000000000000001b);
    lemma_mulbv(0xae86719cd83b743e, 0xae86719cd83b743e, 0x1000000000000001b, 64u32);
    lemma_powmod_add(2, 0x1000000000000, 0x1000000000000, 0x1000000000000001b);
    lemma_mulbv(0xfa5ac498d20dd97e, 0xfa5ac498d20dd97e, 0x1000000000000001b, 64u32);
    lemma_powmod_add(2, 0x2000000000000, 0x2000000000000, 0x1000000000000001b);
    lemma_mulbv(0x50a9adfa20f7c8d5, 0x50a9adfa20f7c8d5, 0x1000000000000001b, 64u32);
    lemma_powmod_add(2, 0x4000000000000, 0x4000000000000, 0x1000000000000001b);
    lemma_mulbv(0xaf06ffc8fb2c50a6, 0xaf06ffc8fb2c50a6, 0x1000000000000001b, 64u32);
    lemma_powmod_add(2, 0x8000000000000, 0x8000000000000, 0x1000000000000001b);
    lemma_mulbv(0xfe42058b1100328e, 0xfe42058b1100328e, 0x1000000000000001b, 64u32);
    lemma_powmod_add(2, 0x10000000000000, 0x10000000000000, 0x1000000000000001b);
    lemma_mulbv(0x11cb06c04a986a2, 0x11cb06c04a986a2, 0x1000000000000001b, 64u32);
    lemma_powmod_add(2, 0x20000000000000, 0x20000000000000, 0x1000000000000001b);
    lemma_mulbv(0xb5837f7159f74, 0xb5837f7159f74, 0x1000000000000001b, 64u32);
    lemma_powmod_add(2, 0x40000000000000, 0x40000000000000, 0x1000000000000001b);
    lemma_mulbv(0x551507a7ec9563d7, 0x551507a7ec9563d7, 0x1000000000000001b, 64u32);
    lemma_powmod_add(2, 0x80000000000000, 0x80000000000000, 0x1000000000000001b);
    lemma_mulbv(0xfefb5bba15c4fcc9, 0xfefb5bba15c4fcc9, 0x1000000000000001b, 64u32);
    lemma_powmod_add(2, 0x100000000000000, 0x100000000000000, 0x1000000000000001b);
    lemma_mulbv(0x10a51a6f8e1e1ac, 0x10a51a6f8e1e1ac, 0x1000000000000001b, 64u32);
    lemma_powmod_add(2, 0x200000000000000, 0x200000000000000, 0x1000000000000001b);
    lemma_mulbv(0x555b52acff1ce98c, 0x555b52acff1ce98c, 0x1000000000000001b, 64u32);
    lemma_powmod_add(2, 0x400000000000000, 0x400000000000000, 0x1000000000000001b);
    lemma_mulbv(0xfffface6ff2beb3b, 0xfffface6ff2beb3b, 0x1000000000000001b, 64u32);
    lemma_powmod_add(2, 0x800000000000000, 0x800000000000000, 0x1000000000000001b);
    lemma_mulbv(0x55550444ff3218d8, 0x55550444ff3218d8, 0x1000000000000001b, 64u32);
    lemma_powmod_add(2, 0x1000000000000000, 0x1000000000000000, 0x1000000000000001b);
    lemma_mulbv(0xffffafaf00f1e0eb, 0xffffafaf00f1e0eb, 0x1000000000000001b, 64u32);
    lemma_powmod_add(2, 0x2000000000000000, 0x2000000000000000, 0x1000000000000001b);
    lemma_mulbv(0x5500ff01ff03, 0x5500ff01ff03, 0x1000000000000001b, 64u32);
    lemma_powmod_add(2, 0x4000000000000000, 0x4000000000000000, 0x1000000000000001b);
    lemma_mulbv(0x55550000fffe0005, 0x55550000fffe0005, 0x1000000000000001b, 64u32);
}

/// `2^0xffffffffffffffff` in `gf2p64`.
proof fn gf2p64_power_ffffffffffffffff()
    ensures
        powmod(2, 0xffffffffffffffff, 0x1000000000000001b) == 0x1,
{
    lemma_gf2p64_sizes();
    gf2p64_products();
    gf2p64_squares();
    lemma_powmod_add(2, 0x1, 0x2, 0x1000000000000001b);
    lemma_mulbv(0x2, 0x4, 0x1000000000000001b, 64u32);
    lemma_powmod_add(2, 0x3, 0x4, 0x1000000000000001b);
    lemma_mulbv(0x8, 0x10, 0x1000000000000001b, 64u32);
    lemma_powmod_add(2, 0x7, 0x8, 0x1000000000000001b);
    lemma_mulbv(0x80, 0x100, 0x1000000000000001b, 64u32);
    lemma_powmod_add(2, 0xf, 0x10, 0x1000000000000001b);
    lemma_mulbv(0x8000, 0x10000, 0x1000000000000001b, 64u32);
    lemma_powmod_add(2, 0x1f, 0x20, 0x1000000000000001b);
    lemma_mulbv(0x80000000, 0x100000000, 0x1000000000000001b, 64u32);
    lemma_powmod_add(2, 0x3f, 0x40, 0x1000000000000001b);
    lemma_mulbv(0x8000000000000000, 0x1b, 0x1000000000000001b, 64u32);
    lemma_powmod_add(2, 0x7f, 0x80, 0x1000000000000001b);
    lemma_mulbv(0x80000000000000af, 0x145, 0x1000000000000001b, 64u32);
    lemma_powmod_add(2, 0xff, 0x100, 0x1000000000000001b);
    lemma_mulbv(0x8000000000008805, 0x11011, 0x1000000000000001b, 64u32);
    lemma_powmod_add(2, 0x1ff, 0x200, 0x1000000000000001b);
    lemma_mulbv(0x800000008080008d, 0x101000101, 0x1000000000000001b, 64u32);
    lemma_powmod_add(2, 0x3ff, 0x400, 0x1000000000000001b);
    lemma_mulbv(0x80000000800d, 0x100000001001a, 0x1000000000000001b, 64u32);
    lemma_powmod_add(2, 0x7ff, 0x800, 0x1000000000000001b);
    lemma_mulbv(0xd000000a2, 0x1a00000144, 0x1000000000000001b, 64u32);
    lemma_powmod_add(2, 0xfff, 0x1000, 0x1000000000000001b);
    lemma_mulbv(0x86de, 0x10dbc, 0x1000000000000001b, 64u32);
    lemma_powmod_add(2, 0x1fff, 0x2000, 0x1000000000000001b);
    lemma_mulbv(0x8028a2a8, 0x100514550, 0x1000000000000001b, 64u32);
    lemma_powmod_add(2, 0x3fff, 0x4000, 0x1000000000000001b);
    lemma_mulbv(0x8000088088088880, 0x11011011111b, 0x1000000000000001b, 64u32);
    lemma_powmod_add(2, 0x7fff, 0x8000, 0x1000000000000001b);
    lemma_mulbv(0x8000808d0d00af, 0x10001011a1a015e, 0x1000000000000001b, 64u32);
    lemma_powmod_add(2, 0xffff, 0x10000, 0x1000000000000001b);
    lemma_mulbv(0x80af80a2000d08aa, 0x15f0144001a114f, 0x1000000000000001b, 64u32);
    lemma_powmod_add(2, 0x1ffff, 0x20000, 0x1000000000000001b);
    lemma_mulbv(0x800d56a1808dd0ff, 0x1aad43011ba1e5, 0x1000000000000001b, 64u32);
    lemma_powmod_add(2, 0x3ffff, 0x40000, 0x1000000000000001b);
    lemma_mulbv(0x8e77f7b5f233, 0x11cefef6be466, 0x1000000000000001b, 64u32);
    lemma_powmod_add(2, 0x7ffff, 0x80000, 0x1000000000000001b);
    lemma_mulbv(0xaa2a8a2f24338784, 0x5455145e48670f13, 0x1000000000000001b, 64u32);
    lemma_powmod_add(2, 0xfffff, 0x100000, 0x1000000000000001b);
    lemma_mulbv(0x5d78df5f0d725681, 0xbaf1bebe1ae4ad02, 0x1000000000000001b, 64u32);
    lemma_powmod_add(2, 0x1fffff, 0x200000, 0x1000000000000001b);
    lemma_mulbv(0x5877a986fa25d821, 0xb0ef530df44bb042, 0x1000000000000001b, 64u32);
    lemma_powmod_add(2, 0x3fffff, 0x400000, 0x1000000000000001b);
    lemma_mulbv(0xf10b85a1f73b8b97, 0xe2170b43ee771735, 0x1000000000000001b, 64u32);
    lemma_powmod_add(2, 0x7fffff, 0x800000, 0x1000000000000001b);
    lemma_mulbv(0xa41c07e903d1da9e, 0x48380fd207a3b527, 0x1000000000000001b, 64u32);
    lemma_powmod_add(2, 0xffffff, 0x1000000, 0x1000000000000001b);
    lemma_mulbv(0x5b6a9ae2a108b7b1, 0xb6d535c542116f62, 0x1000000000000001b, 64u32);
    lemma_powmod_add(2, 0x1ffffff, 0x2000000, 0x1000000000000001b);
    lemma_mulbv(0xd36fb5d5317cb2f7, 0xa6df6baa62f965f5, 0x1000000000000001b, 64u32);
    lemma_powmod_add(2, 0x3ffffff, 0x4000000, 0x1000000000000001b);
    lemma_mulbv(0xdcef9ca3e7507ffe, 0xb9df3947cea0ffe7, 0x1000000000000001b, 64u32);
    lemma_powmod_add(2, 0x7ffffff, 0x8000000, 0x1000000000000001b);
    lemma_mulbv(0x70c414039247f2c4, 0xe1882807248fe588, 0x1000000000000001b, 64u32);
    lemma_powmod_add(2, 0xfffffff, 0x10000000, 0x1000000000000001b);
    lemma_mulbv(0xc06c34a9f68a0e3, 0x180d86953ed141c6, 0x1000000000000001b, 64u32);
    lemma_powmod_add(2, 0x1fffffff, 0x20000000, 0x1000000000000001b);
    lemma_mulbv(0x8c4a2b3668edc552, 0x1894566cd1db8abf, 0x1000000000000001b, 64u32);
    lemma_powmod_add(2, 0x3fffffff, 0x40000000, 0x1000000000000001b);
    lemma_mulbv(0xa663c5fa754ccf1f, 0x4cc78bf4ea999e25, 0x1000000000000001b, 64u32);
    lemma_powmod_add(2, 0x7fffffff, 0x80000000, 0x1000000000000001b);
    lemma_mulbv(0x7199984043f2015d, 0xe333308087e402ba, 0x1000000000000001b, 64u32);
    lemma_powmod_add(2, 0xffffffff, 0x100000000, 0x1000000000000001b);
    lemma_mulbv(0xae3111b3bb81428f, 0x5c62236777028505, 0x1000000000000001b, 64u32);
    lemma_powmod_add(2, 0x1ffffffff, 0x200000000, 0x1000000000000001b);
    lemma_mulbv(0xdcb26e341633eeeb, 0xb964dc682c67ddcd, 0x1000000000000001b, 64u32);
    lemma_powmod_add(2, 0x3ffffffff, 0x400000000, 0x1000000000000001b);
    lemma_mulbv(0xdac564d11e904568, 0xb58ac9a23d208acb, 0x1000000000000001b, 64u32);
    lemma_powmod_add(2, 0x7ffffffff, 0x800000000, 0x1000000000000001b);
    lemma_mulbv(0xd9fe61559b4cfe34, 0xb3fcc2ab3699fc73, 0x1000000000000001b, 64u32);
    lemma_powmod_add(2, 0xfffffffff, 0x1000000000, 0x1000000000000001b);
    lemma_mulbv(0x5932209b129d5ff4, 0xb2644136253abfe8, 0x1000000000000001b, 64u32);
    lemma_powmod_add(2, 0x1fffffffff, 0x2000000000, 0x1000000000000001b);
    lemma_mulbv(0x59be6c7afaa71163, 0xb37cd8f5f54e22c6, 0x1000000000000001b, 64u32);
    lemma_powmod_add(2, 0x3fffffffff, 0x4000000000, 0x1000000000000001b);
    lemma_mulbv(0xf133e811b4e1ab7f, 0xe267d02369c356e5, 0x1000000000000001b, 64u32);
    lemma_powmod_add(2, 0x7fffffffff, 0x8000000000, 0x1000000000000001b);
    lemma_mulbv(0x841646e2bd0a1c1e, 0x82c8dc57a143827, 0x1000000000000001b, 64u32);
    lemma_powmod_add(2, 0xffffffffff, 0x10000000000, 0x1000000000000001b);
    lemma_mulbv(0x9c2353361163adf, 0x13846a66c22c75be, 0x1000000000000001b, 64u32);
    lemma_powmod_add(2, 0x1ffffffffff, 0x20000000000, 0x1000000000000001b);
    lemma_mulbv(0x25bae2f0e7de4c44, 0x4b75c5e1cfbc9888, 0x1000000000000001b, 64u32);
    lemma_powmod_add(2, 0x3ffffffffff, 0x40000000000, 0x1000000000000001b);
    lemma_mulbv(0x7371c1fe18762e20, 0xe6e383fc30ec5c40, 0x1000000000000001b, 64u32);
    lemma_powmod_add(2, 0x7ffffffffff, 0x80000000000, 0x1000000000000001b);
    lemma_mulbv(0x8c6da410e8900815, 0x18db4821d1201031, 0x1000000000000001b, 64u32);
    lemma_powmod_add(2, 0xfffffffffff, 0x100000000000, 0x1000000000000001b);
    lemma_mulbv(0x266334db5be0348d, 0x4cc669b6b7c0691a, 0x1000000000000001b, 64u32);
    lemma_powmod_add(2, 0x1fffffffffff, 0x200000000000, 0x1000000000000001b);
    lemma_mulbv(0xf93110eee74e5bcc, 0xf26221ddce9cb783, 0x1000000000000001b, 64u32);
    lemma_powmod_add(2, 0x3fffffffffff, 0x400000000000, 0x1000000000000001b);
    lemma_mulbv(0xab9cce9e1484961a, 0x57399d3c29092c2f, 0x1000000000000001b, 64u32);
    lemma_powmod_add(2, 0x7fffffffffff, 0x800000000000, 0x1000000000000001b);
    lemma_mulbv(0x574338ce6c1dba1f, 0xae86719cd83b743e, 0x1000000000000001b, 64u32);
    lemma_powmod_add(2, 0xffffffffffff, 0x1000000000000, 0x1000000000000001b);
    lemma_mulbv(0x7d2d624c6906ecbf, 0xfa5ac498d20dd97e, 0x1000000000000001b, 64u32);
    lemma_powmod_add(2, 0x1ffffffffffff, 0x2000000000000, 0x1000000000000001b);
    lemma_mulbv(0xa854d6fd107be467, 0x50a9adfa20f7c8d5, 0x1000000000000001b, 64u32);
    lemma_powmod_add(2, 0x3ffffffffffff, 0x4000000000000, 0x1000000000000001b);
    lemma_mulbv(0x57837fe47d962853, 0xaf06ffc8fb2c50a6, 0x1000000000000001b, 64u32);
    lemma_powmod_add(2, 0x7ffffffffffff, 0x8000000000000, 0x1000000000000001b);
    lemma_mulbv(0x7f2102c588801947, 0xfe42058b1100328e, 0x1000000000000001b, 64u32);
    lemma_powmod_add(2, 0xfffffffffffff, 0x10000000000000, 0x1000000000000001b);
    lemma_mulbv(0x8e58360254c351, 0x11cb06c04a986a2, 0x1000000000000001b, 64u32);
    lemma_powmod_add(2, 0x1fffffffffffff, 0x20000000000000, 0x1000000000000001b);
    lemma_mulbv(0x5ac1bfb8acfba, 0xb5837f7159f74, 0x1000000000000001b, 64u32);
    lemma_powmod_add(2, 0x3fffffffffffff, 0x40000000000000, 0x1000000000000001b);
    lemma_mulbv(0xaa8a83d3f64ab1e6, 0x551507a7ec9563d7, 0x1000000000000001b, 64u32);
    lemma_powmod_add(2, 0x7fffffffffffff, 0x80000000000000, 0x1000000000000001b);
    lemma_mulbv(0xff7daddd0ae27e69, 0xfefb5bba15c4fcc9, 0x1000000000000001b, 64u32);
    lemma_powmod_add(2, 0xffffffffffffff, 0x100000000000000, 0x1000000000000001b);
    lemma_mulbv(0x8528d37c70f0d6, 0x10a51a6f8e1e1ac, 0x1000000000000001b, 64u32);
    lemma_powmod_add(2, 0x1ffffffffffffff, 0x200000000000000, 0x1000000000000001b);
    lemma_mulbv(0x2aada9567f8e74c6, 0x555b52acff1ce98c, 0x1000000000000001b, 64u32);
    lemma_powmod_add(2, 0x3ffffffffffffff, 0x400000000000000, 0x1000000000000001b);
    lemma_mulbv(0xffffd6737f95f590, 0xfffface6ff2beb3b, 0x1000000000000001b, 64u32);
    lemma_powmod_add(2, 0x7ffffffffffffff, 0x800000000000000, 0x1000000000000001b);
    lemma_mulbv(0x2aaa82227f990c6c, 0x55550444ff3218d8, 0x1000000000000001b, 64u32);
    lemma_powmod_add(2, 0xfffffffffffffff, 0x1000000000000000, 0x1000000000000001b);
    lemma_mulbv(0xffffd7d78078f078, 0xffffafaf00f1e0eb, 0x1000000000000001b, 64u32);
    lemma_powmod_add(2, 0x1fffffffffffffff, 0x2000000000000000, 0x1000000000000001b);
    lemma_mulbv(0x80002a807f80ff8c, 0x5500ff01ff03, 0x1000000000000001b, 64u32);
    lemma_powmod_add(2, 0x3fffffffffffffff, 0x4000000000000000, 0x1000000000000001b);
    lemma_mulbv(0xaaaa80007fff000f, 0x55550000fffe0005, 0x1000000000000001b, 64u32);
    lemma_powmod_add(2, 0x7fffffffffffffff, 0x8000000000000000, 0x1000000000000001b);
    lemma_mulbv(0x7fffffff80000005, 0xffffffff0000000a, 0x1000000000000001b, 64u32);
}

/// `2^0x5555555555555555` in `gf2p64`.
proof fn gf2p64_power_5555555555555555()
    ensures
        powmod(2, 0x5555555555555555, 0x1000000000000001b) == 0x19c9369f278adc02,
{
    lemma_gf2p64_sizes();
    gf2p64_products();
    gf2p64_squares();
    lemma_powmod_add(2, 0x1, 0x4, 0x1000000000000001b);
    lemma_mulbv(0x2, 0x10, 0x1000000000000001b, 64u32);
    lemma_powmod_add(2, 0x5, 0x10, 0x1000000000000001b);
    lemma_mulbv(0x20, 0x10000, 0x1000000000000001b, 64u32);
    lemma_powmod_add(2, 0x15, 0x40, 0x1000000000000001b);
    lemma_mulbv(0x200000, 0x1b, 0x1000000000000001b, 64u32);
    lemma_powmod_add(2, 0x55, 0x100, 0x1000000000000001b);
    lemma_mulbv(0x3600000, 0x11011, 0x1000000000000001b, 64u32);
    lemma_powmod_add(2, 0x155, 0x400, 0x1000000000000001b);
    lemma_mulbv(0x35635600000, 0x100000001001a, 0x1000000000000001b, 64u32);
    lemma_powmod_add(2, 0x555, 0x1000, 0x1000000000000001b);
    lemma_mulbv(0x3561c1ebde8a2a0, 0x10dbc, 0x1000000000000001b, 64u32);
    lemma_powmod_add(2, 0x1555, 0x4000, 0x1000000000000001b);
    lemma_mulbv(0x41d6f1a022b5ba6d, 0x11011011111b, 0x1000000000000001b, 64u32);
    lemma_powmod_add(2, 0x5555, 0x10000, 0x1000000000000001b);
    lemma_mulbv(0x4d6819025c80cd7f, 0x15f0144001a114f, 0x1000000000000001b, 64u32);
    lemma_powmod_add(2, 0x15555, 0x40000, 0x1000000000000001b);
    lemma_mulbv(0x7b1a63ddb974e8a7, 0x11cefef6be466, 0x1000000000000001b, 64u32);
    lemma_powmod_add(2, 0x55555, 0x100000, 0x1000000000000001b);
    lemma_mulbv(0x3ee07b8050d485b, 0xbaf1bebe1ae4ad02, 0x1000000000000001b, 64u32);
    lemma_powmod_add(2, 0x155555, 0x400000, 0x1000000000000001b);
    lemma_mulbv(0x2013834b36deef4, 0xe2170b43ee771735, 0x1000000000000001b, 64u32);
    lemma_powmod_add(2, 0x555555, 0x1000000, 0x1000000000000001b);
    lemma_mulbv(0x6b7737963d69e575, 0xb6d535c542116f62, 0x1000000000000001b, 64u32);
    lemma_powmod_add(2, 0x1555555, 0x4000000, 0x1000000000000001b);
    lemma_mulbv(0xd0089980767f2112, 0xb9df3947cea0ffe7, 0x1000000000000001b, 64u32);
    lemma_powmod_add(2, 0x5555555, 0x10000000, 0x1000000000000001b);
    lemma_mulbv(0x22ba97c096e196e1, 0x180d86953ed141c6, 0x1000000000000001b, 64u32);
    lemma_powmod_add(2, 0x15555555, 0x40000000, 0x1000000000000001b);
    lemma_mulbv(0x545f2216337b556c, 0x4cc78bf4ea999e25, 0x1000000000000001b, 64u32);
    lemma_powmod_add(2, 0x55555555, 0x100000000, 0x1000000000000001b);
    lemma_mulbv(0x7ca147cf631de25d, 0x5c62236777028505, 0x1000000000000001b, 64u32);
    lemma_powmod_add(2, 0x155555555, 0x400000000, 0x1000000000000001b);
    lemma_mulbv(0x7d412ec37efd4d4e, 0xb58ac9a23d208acb, 0x1000000000000001b, 64u32);
    lemma_powmod_add(2, 0x555555555, 0x1000000000, 0x1000000000000001b);
    lemma_mulbv(0xffdcc0be1355675a, 0xb2644136253abfe8, 0x1000000000000001b, 64u32);
    lemma_powmod_add(2, 0x1555555555, 0x4000000000, 0x1000000000000001b);
    lemma_mulbv(0x2816015f08d7b93a, 0xe267d02369c356e5, 0x1000000000000001b, 64u32);
    lemma_powmod_add(2, 0x5555555555, 0x10000000000, 0x1000000000000001b);
    lemma_mulbv(0x9577a289e5e2cd91, 0x13846a66c22c75be, 0x1000000000000001b, 64u32);
    lemma_powmod_add(2, 0x15555555555, 0x40000000000, 0x1000000000000001b);
    lemma_mulbv(0x249569e936fc63f9, 0xe6e383fc30ec5c40, 0x1000000000000001b, 64u32);
    lemma_powmod_add(2, 0x55555555555, 0x100000000000, 0x1000000000000001b);
    lemma_mulbv(0x1525fa57aeaa81fd, 0x4cc669b6b7c0691a, 0x1000000000000001b, 64u32);
    lemma_powmod_add(2, 0x155555555555, 0x400000000000, 0x1000000000000001b);
    lemma_mulbv(0x783488ae7f12b785, 0x57399d3c29092c2f, 0x1000000000000001b, 64u32);
    lemma_powmod_add(2, 0x555555555555, 0x1000000000000, 0x1000000000000001b);
    lemma_mulbv(0x5567175f25096c72, 0xfa5ac498d20dd97e, 0x1000000000000001b, 64u32);
    lemma_powmod_add(2, 0x1555555555555, 0x4000000000000, 0x1000000000000001b);
    lemma_mulbv(0x569de14852598197, 0xaf06ffc8fb2c50a6, 0x1000000000000001b, 64u32);
    lemma_powmod_add(2, 0x5555555555555, 0x10000000000000, 0x1000000000000001b);
    lemma_mulbv(0x41c0dabc44fc76d1, 0x11cb06c04a986a2, 0x1000000000000001b, 64u32);
    lemma_powmod_add(2, 0x15555555555555, 0x40000000000000, 0x1000000000000001b);
    lemma_mulbv(0x7280844873577da9, 0x551507a7ec9563d7, 0x1000000000000001b, 64u32);
    lemma_powmod_add(2, 0x55555555555555, 0x100000000000000, 0x1000000000000001b);
    lemma_mulbv(0x74fb1e007c3eb4e4, 0x10a51a6f8e1e1ac, 0x1000000000000001b, 64u32);
    lemma_powmod_add(2, 0x155555555555555, 0x400000000000000, 0x1000000000000001b);
    lemma_mulbv(0xf4623b2e214e38e6, 0xfffface6ff2beb3b, 0x1000000000000001b, 64u32);
    lemma_powmod_add(2, 0x555555555555555, 0x1000000000000000, 0x1000000000000001b);
    lemma_mulbv(0x2af5c424e44ac302, 0xffffafaf00f1e0eb, 0x1000000000000001b, 64u32);
    lemma_powmod_add(2, 0x1555555555555555, 0x4000000000000000, 0x1000000000000001b);
    lemma_mulbv(0xe837e94c1d14bfa0, 0x55550000fffe0005, 0x1000000000000001b, 64u32);
}

/// `2^0x3333333333333333` in `gf2p64`.
proof fn gf2p64_power_3333333333333333()
    ensures
        powmod(2, 0x3333333333333333, 0x1000000000000001b) == 0x5db84357ce785d09,
{
    lemma_gf2p64_sizes();
    gf2p64_products();
    gf2p64_squares();
    lemma_powmod_add(2, 0x1, 0x2, 0x1000000000000001b);
    lemma_mulbv(0x2, 0x4, 0x1000000000000001b, 64u32);
    lemma_powmod_add(2, 0x3, 0x10, 0x1000000000000001b);
    lemma_mulbv(0x8, 0x10000, 0x1000000000000001b, 64u32);
    lemma_powmod_add(2, 0x13, 0x20, 0x1000000000000001b);
    lemma_mulbv(0x80000, 0x100000000, 0x1000000000000001b, 64u32);
    lemma_powmod_add(2, 0x33, 0x100, 0x1000000000000001b);
    lemma_mulbv(0x8000000000000, 0x11011, 0x1000000000000001b, 64u32);
    lemma_powmod_add(2, 0x133, 0x200, 0x1000000000000001b);
    lemma_mulbv(0x80880000000000d8, 0x101000101, 0x1000000000000001b, 64u32);
    lemma_powmod_add(2, 0x333, 0x1000, 0x1000000000000001b);
    lemma_mulbv(0x88800d558d58d58, 0x10dbc, 0x1000000000000001b, 64u32);
    lemma_powmod_add(2, 0x1333, 0x2000, 0x1000000000000001b);
    lemma_mulbv(0x53300a85fa5fa52d, 0x100514550, 0x1000000000000001b, 64u32);
    lemma_powmod_add(2, 0x3333, 0x10000, 0x1000000000000001b);
    lemma_mulbv(0xf47888c318a0b9f7, 0x15f0144001a114f, 0x1000000000000001b, 64u32);
    lemma_powmod_add(2, 0x13333, 0x20000, 0x1000000000000001b);
    lemma_mulbv(0x4d9572d59b46f08f, 0x1aad43011ba1e5, 0x1000000000000001b, 64u32);
    lemma_powmod_add(2, 0x33333, 0x100000, 0x1000000000000001b);
    lemma_mulbv(0xc082b3fb3d120f8e, 0xbaf1bebe1ae4ad02, 0x1000000000000001b, 64u32);
    lemma_powmod_add(2, 0x133333, 0x200000, 0x1000000000000001b);
    lemma_mulbv(0x653b8fa106eef761, 0xb0ef530df44bb042, 0x1000000000000001b, 64u32);
    lemma_powmod_add(2, 0x333333, 0x1000000, 0x1000000000000001b);
    lemma_mulbv(0xf7aeba4d1afd0f13, 0xb6d535c542116f62, 0x1000000000000001b, 64u32);
    lemma_powmod_add(2, 0x1333333, 0x2000000, 0x1000000000000001b);
    lemma_mulbv(0xf09bd776ba743bcc, 0xa6df6baa62f965f5, 0x1000000000000001b, 64u32);
    lemma_powmod_add(2, 0x3333333, 0x10000000, 0x1000000000000001b);
    lemma_mulbv(0x6a4746c6baa52e01, 0x180d86953ed141c6, 0x1000000000000001b, 64u32);
    lemma_powmod_add(2, 0x13333333, 0x20000000, 0x1000000000000001b);
    lemma_mulbv(0xde15e551e213813f, 0x1894566cd1db8abf, 0x1000000000000001b, 64u32);
    lemma_powmod_add(2, 0x33333333, 0x100000000, 0x1000000000000001b);
    lemma_mulbv(0x41b9c24f609737ab, 0x5c62236777028505, 0x1000000000000001b, 64u32);
    lemma_powmod_add(2, 0x133333333, 0x200000000, 0x1000000000000001b);
    lemma_mulbv(0x195f84043832972b, 0xb964dc682c67ddcd, 0x1000000000000001b, 64u32);
    lemma_powmod_add(2, 0x333333333, 0x1000000000, 0x1000000000000001b);
    lemma_mulbv(0x681901f571a8c0bf, 0xb2644136253abfe8, 0x1000000000000001b, 64u32);
    lemma_powmod_add(2, 0x1333333333, 0x2000000000, 0x1000000000000001b);
    lemma_mulbv(0x5481d489c86c40de, 0xb37cd8f5f54e22c6, 0x1000000000000001b, 64u32);
    lemma_powmod_add(2, 0x3333333333, 0x10000000000, 0x1000000000000001b);
    lemma_mulbv(0xee9eb17ff8f7a244, 0x13846a66c22c75be, 0x1000000000000001b, 64u32);
    lemma_powmod_add(2, 0x13333333333, 0x20000000000, 0x1000000000000001b);
    lemma_mulbv(0x40509bedc810d676, 0x4b75c5e1cfbc9888, 0x1000000000000001b, 64u32);
    lemma_powmod_add(2, 0x33333333333, 0x100000000000, 0x1000000000000001b);
    lemma_mulbv(0x4176aefdbbb609a9, 0x4cc669b6b7c0691a, 0x1000000000000001b, 64u32);
    lemma_powmod_add(2, 0x133333333333, 0x200000000000, 0x1000000000000001b);
    lemma_mulbv(0xd6a9956880454180, 0xf26221ddce9cb783, 0x1000000000000001b, 64u32);
    lemma_powmod_add(2, 0x333333333333, 0x1000000000000, 0x1000000000000001b);
    lemma_mulbv(0xc05e771a183aa2e6, 0xfa5ac498d20dd97e, 0x1000000000000001b, 64u32);
    lemma_powmod_add(2, 0x1333333333333, 0x2000000000000, 0x1000000000000001b);
    lemma_mulbv(0xcf1fd7bdba955bed, 0x50a9adfa20f7c8d5, 0x1000000000000001b, 64u32);
    lemma_powmod_add(2, 0x3333333333333, 0x10000000000000, 0x1000000000000001b);
    lemma_mulbv(0x8fbe83b5e9df6842, 0x11cb06c04a986a2, 0x1000000000000001b, 64u32);
    lemma_powmod_add(2, 0x13333333333333, 0x20000000000000, 0x1000000000000001b);
    lemma_mulbv(0x3673d304828c09c2, 0xb5837f7159f74, 0x1000000000000001b, 64u32);
    lemma_powmod_add(2, 0x33333333333333, 0x100000000000000, 0x1000000000000001b);
    lemma_mulbv(0xf622f9cb6b64b253, 0x10a51a6f8e1e1ac, 0x1000000000000001b, 64u32);
    lemma_powmod_add(2, 0x133333333333333, 0x200000000000000, 0x1000000000000001b);
    lemma_mulbv(0xb1f4d5f6932ab464, 0x555b52acff1ce98c, 0x1000000000000001b, 64u32);
    lemma_powmod_add(2, 0x333333333333333, 0x1000000000000000, 0x1000000000000001b);
    lemma_mulbv(0x56adceacd237aff9, 0xffffafaf00f1e0eb, 0x1000000000000001b, 64u32);
    lemma_powmod_add(2, 0x1333333333333333, 0x2000000000000000, 0x1000000000000001b);
    lemma_mulbv(0x2a845da1db741026, 0x5500ff01ff03, 0x1000000000000001b, 64u32);
}

/// `2^0xf0f0f0f0f0f0f0f` in `gf2p64`.
proof fn gf2p64_power_f0f0f0f0f0f0f0f()
    ensures
        powmod(2, 0xf0f0f0f0f0f0f0f, 0x1000000000000001b) == 0xcf7b828f270c0db,
{
    lemma_gf2p64_sizes();
    gf2p64_products();
    gf2p64_squares();
    lemma_powmod_add(2, 0x1, 0x2, 0x1000000000000001b);
    lemma_mulbv(0x2, 0x4, 0x1000000000000001b, 64u32);
    lemma_powmod_add(2, 0x3, 0x4, 0x1000000000000001b);
    lemma_mulbv(0x8, 0x10, 0x1000000000000001b, 64u32);
    lemma_powmod_add(2, 0x7, 0x8, 0x1000000000000001b);
    lemma_mulbv(0x80, 0x100, 0x1000000000000001b, 64u32);
    lemma_powmod_add(2, 0xf, 0x100, 0x1000000000000001b);
    lemma_mulbv(0x8000, 0x11011, 0x1000000000000001b, 64u32);
    lemma_powmod_add(2, 0x10f, 0x200, 0x1000000000000001b);
    lemma_mulbv(0x88088000, 0x101000101, 0x1000000000000001b, 64u32);
    lemma_powmod_add(2, 0x30f, 0x400, 0x1000000000000001b);
    lemma_mulbv(0x8880880880888000, 0x100000001001a, 0x1000000000000001b, 64u32);
    lemma_powmod_add(2, 0x70f, 0x800, 0x1000000000000001b);
    lemma_mulbv(0xd50805d8d505d877, 0x1a00000144, 0x1000000000000001b, 64u32);
    lemma_powmod_add(2, 0xf0f, 0x10000, 0x1000000000000001b);
    lemma_mulbv(0x4c5c4d4c5c4dc26f, 0x15f0144001a114f, 0x1000000000000001b, 64u32);
    lemma_powmod_add(2, 0x10f0f, 0x20000, 0x1000000000000001b);
    lemma_mulbv(0x8aaafd2254247031, 0x1aad43011ba1e5, 0x1000000000000001b, 64u32);
    lemma_powmod_add(2, 0x30f0f, 0x40000, 0x1000000000000001b);
    lemma_mulbv(0x2857c01f8207d6ed, 0x11cefef6be466, 0x1000000000000001b, 64u32);
    lemma_powmod_add(2, 0x70f0f, 0x80000, 0x1000000000000001b);
    lemma_mulbv(0xb8c2ac33e9adea53, 0x5455145e48670f13, 0x1000000000000001b, 64u32);
    lemma_powmod_add(2, 0xf0f0f, 0x1000000, 0x1000000000000001b);
    lemma_mulbv(0xfd7b5585b14f5003, 0xb6d535c542116f62, 0x1000000000000001b, 64u32);
    lemma_powmod_add(2, 0x10f0f0f, 0x2000000, 0x1000000000000001b);
    lemma_mulbv(0x5bd560f75a5f3842, 0xa6df6baa62f965f5, 0x1000000000000001b, 64u32);
    lemma_powmod_add(2, 0x30f0f0f, 0x4000000, 0x1000000000000001b);
    lemma_mulbv(0x7f2547ed34ee3e85, 0xb9df3947cea0ffe7, 0x1000000000000001b, 64u32);
    lemma_powmod_add(2, 0x70f0f0f, 0x8000000, 0x1000000000000001b);
    lemma_mulbv(0xed5a063c3218c385, 0xe1882807248fe588, 0x1000000000000001b, 64u32);
    lemma_powmod_add(2, 0xf0f0f0f, 0x100000000, 0x1000000000000001b);
    lemma_mulbv(0x7c207a0ebb35fb24, 0x5c62236777028505, 0x1000000000000001b, 64u32);
    lemma_powmod_add(2, 0x10f0f0f0f, 0x200000000, 0x1000000000000001b);
    lemma_mulbv(0xca441d9a7eab34b5, 0xb964dc682c67ddcd, 0x1000000000000001b, 64u32);
    lemma_powmod_add(2, 0x30f0f0f0f, 0x400000000, 0x1000000000000001b);
    lemma_mulbv(0x9f5a3b101a16694a, 0xb58ac9a23d208acb, 0x1000000000000001b, 64u32);
    lemma_powmod_add(2, 0x70f0f0f0f, 0x800000000, 0x1000000000000001b);
    lemma_mulbv(0x1143686752db7d21, 0xb3fcc2ab3699fc73, 0x1000000000000001b, 64u32);
    lemma_powmod_add(2, 0xf0f0f0f0f, 0x10000000000, 0x1000000000000001b);
    lemma_mulbv(0x35de344d4233f25f, 0x13846a66c22c75be, 0x1000000000000001b, 64u32);
    lemma_powmod_add(2, 0x10f0f0f0f0f, 0x20000000000, 0x1000000000000001b);
    lemma_mulbv(0x63d777ef0eb8598c, 0x4b75c5e1cfbc9888, 0x1000000000000001b, 64u32);
    lemma_powmod_add(2, 0x30f0f0f0f0f, 0x40000000000, 0x1000000000000001b);
    lemma_mulbv(0x2ce4a06e9386a40d, 0xe6e383fc30ec5c40, 0x1000000000000001b, 64u32);
    lemma_powmod_add(2, 0x70f0f0f0f0f, 0x80000000000, 0x1000000000000001b);
    lemma_mulbv(0x58ee6afea95fdbe2, 0x18db4821d1201031, 0x1000000000000001b, 64u32);
    lemma_powmod_add(2, 0xf0f0f0f0f0f, 0x1000000000000, 0x1000000000000001b);
    lemma_mulbv(0x6317da202446dfe3, 0xfa5ac498d20dd97e, 0x1000000000000001b, 64u32);
    lemma_powmod_add(2, 0x10f0f0f0f0f0f, 0x2000000000000, 0x1000000000000001b);
    lemma_mulbv(0x550e43ee1ba9c713, 0x50a9adfa20f7c8d5, 0x1000000000000001b, 64u32);
    lemma_powmod_add(2, 0x30f0f0f0f0f0f, 0x4000000000000, 0x1000000000000001b);
    lemma_mulbv(0x47297d74a9a84c47, 0xaf06ffc8fb2c50a6, 0x1000000000000001b, 64u32);
    lemma_powmod_add(2, 0x70f0f0f0f0f0f, 0x8000000000000, 0x1000000000000001b);
    lemma_mulbv(0xc23eda6603d1827e, 0xfe42058b1100328e, 0x1000000000000001b, 64u32);
    lemma_powmod_add(2, 0xf0f0f0f0f0f0f, 0x100000000000000, 0x1000000000000001b);
    lemma_mulbv(0xb911f05905bf6e4b, 0x10a51a6f8e1e1ac, 0x1000000000000001b, 64u32);
    lemma_powmod_add(2, 0x10f0f0f0f0f0f0f, 0x200000000000000, 0x1000000000000001b);
    lemma_mulbv(0x5af9e4498fb3dbac, 0x555b52acff1ce98c, 0x1000000000000001b, 64u32);
    lemma_powmod_add(2, 0x30f0f0f0f0f0f0f, 0x400000000000000, 0x1000000000000001b);
    lemma_mulbv(0x730f8f09bb7f83d4, 0xfffface6ff2beb3b, 0x1000000000000001b, 64u32);
    lemma_powmod_add(2, 0x70f0f0f0f0f0f0f, 0x800000000000000, 0x1000000000000001b);
    lemma_mulbv(0x4e6753035fa63085, 0x55550444ff3218d8, 0x1000000000000001b, 64u32);
}

/// `2^0xff00ff00ff00ff` in `gf2p64`.
proof fn gf2p64_power_ff00ff00ff00ff()
    ensures
        powmod(2, 0xff00ff00ff00ff, 0x1000000000000001b) == 0x56dfcf872019d0c1,
{
    lemma_gf2p64_sizes();
    gf2p64_products();
    gf2p64_squares();
    lemma_powmod_add(2, 0x1, 0x2, 0x1000000000000001b);
    lemma_mulbv(0x2, 0x4, 0x1000000000000001b, 64u32);
    lemma_powmod_add(2, 0x3, 0x4, 0x1000000000000001b);
    lemma_mulbv(0x8, 0x10, 0x1000000000000001b, 64u32);
    lemma_powmod_add(2, 0x7, 0x8, 0x1000000000000001b);
    lemma_mulbv(0x80, 0x100, 0x1000000000000001b, 64u32);
    lemma_powmod_add(2, 0xf, 0x10, 0x1000000000000001b);
    lemma_mulbv(0x8000, 0x10000, 0x1000000000000001b, 64u32);
    lemma_powmod_add(2, 0x1f, 0x20, 0x1000000000000001b);
    lemma_mulbv(0x80000000, 0x100000000, 0x1000000000000001b, 64u32);
    lemma_powmod_add(2, 0x3f, 0x40, 0x1000000000000001b);
    lemma_mulbv(0x8000000000000000, 0x1b, 0x1000000000000001b, 64u32);
    lemma_powmod_add(2, 0x7f, 0x80, 0x1000000000000001b);
    lemma_mulbv(0x80000000000000af, 0x145, 0x1000000000000001b, 64u32);
    lemma_powmod_add(2, 0xff, 0x10000, 0x1000000000000001b);
    lemma_mulbv(0x8000000000008805, 0x15f0144001a114f, 0x1000000000000001b, 64u32);
    lemma_powmod_add(2, 0x100ff, 0x20000, 0x1000000000000001b);
    lemma_mulbv(0xf2ffaa8fd8f07445, 0x1aad43011ba1e5, 0x1000000000000001b, 64u32);
    lemma_powmod_add(2, 0x300ff, 0x40000, 0x1000000000000001b);
    lemma_mulbv(0x282f7cbf4eae4c78, 0x11cefef6be466, 0x1000000000000001b, 64u32);
    lemma_powmod_add(2, 0x700ff, 0x80000, 0x1000000000000001b);
    lemma_mulbv(0x98d957d329fd8933, 0x5455145e48670f13, 0x1000000000000001b, 64u32);
    lemma_powmod_add(2, 0xf00ff, 0x100000, 0x1000000000000001b);
    lemma_mulbv(0xe74dcd2eed6a4e52, 0xbaf1bebe1ae4ad02, 0x1000000000000001b, 64u32);
    lemma_powmod_add(2, 0x1f00ff, 0x200000, 0x1000000000000001b);
    lemma_mulbv(0x4603d8dcf8b3a858, 0xb0ef530df44bb042, 0x1000000000000001b, 64u32);
    lemma_powmod_add(2, 0x3f00ff, 0x400000, 0x1000000000000001b);
    lemma_mulbv(0xdb95dc986e28d155, 0xe2170b43ee771735, 0x1000000000000001b, 64u32);
    lemma_powmod_add(2, 0x7f00ff, 0x800000, 0x1000000000000001b);
    lemma_mulbv(0x2ffabcd8435a3bdb, 0x48380fd207a3b527, 0x1000000000000001b, 64u32);
    lemma_powmod_add(2, 0xff00ff, 0x100000000, 0x1000000000000001b);
    lemma_mulbv(0xc57e5fd53bdca067, 0x5c62236777028505, 0x1000000000000001b, 64u32);
    lemma_powmod_add(2, 0x100ff00ff, 0x200000000, 0x1000000000000001b);
    lemma_mulbv(0xc0ef417f5a29effd, 0xb964dc682c67ddcd, 0x1000000000000001b, 64u32);
    lemma_powmod_add(2, 0x300ff00ff, 0x400000000, 0x1000000000000001b);
    lemma_mulbv(0xeb21b212fb5bb538, 0xb58ac9a23d208acb, 0x1000000000000001b, 64u32);
    lemma_powmod_add(2, 0x700ff00ff, 0x800000000, 0x1000000000000001b);
    lemma_mulbv(0x2298fb450fa8a50, 0xb3fcc2ab3699fc73, 0x1000000000000001b, 64u32);
    lemma_powmod_add(2, 0xf00ff00ff, 0x1000000000, 0x1000000000000001b);
    lemma_mulbv(0x689258ddfb15a9bb, 0xb2644136253abfe8, 0x1000000000000001b, 64u32);
    lemma_powmod_add(2, 0x1f00ff00ff, 0x2000000000, 0x1000000000000001b);
    lemma_mulbv(0xc7403a60c32e4cda, 0xb37cd8f5f54e22c6, 0x1000000000000001b, 64u32);
    lemma_powmod_add(2, 0x3f00ff00ff, 0x4000000000, 0x1000000000000001b);
    lemma_mulbv(0x533ff117791afa6, 0xe267d02369c356e5, 0x1000000000000001b, 64u32);
    lemma_powmod_add(2, 0x7f00ff00ff, 0x8000000000, 0x1000000000000001b);
    lemma_mulbv(0x1409573ac026c212, 0x82c8dc57a143827, 0x1000000000000001b, 64u32);
    lemma_powmod_add(2, 0xff00ff00ff, 0x1000000000000, 0x1000000000000001b);
    lemma_mulbv(0x24035a3f6ee0b086, 0xfa5ac498d20dd97e, 0x1000000000000001b, 64u32);
    lemma_powmod_add(2, 0x100ff00ff00ff, 0x2000000000000, 0x1000000000000001b);
    lemma_mulbv(0xad04989631ec2e10, 0x50a9adfa20f7c8d5, 0x1000000000000001b, 64u32);
    lemma_powmod_add(2, 0x300ff00ff00ff, 0x4000000000000, 0x1000000000000001b);
    lemma_mulbv(0xb49524706eaf213c, 0xaf06ffc8fb2c50a6, 0x1000000000000001b, 64u32);
    lemma_powmod_add(2, 0x700ff00ff00ff, 0x8000000000000, 0x1000000000000001b);
    lemma_mulbv(0xbbe5abf8f2af6fed, 0xfe42058b1100328e, 0x1000000000000001b, 64u32);
    lemma_powmod_add(2, 0xf00ff00ff00ff, 0x10000000000000, 0x1000000000000001b);
    lemma_mulbv(0xde685df95db8caca, 0x11cb06c04a986a2, 0x1000000000000001b, 64u32);
    lemma_powmod_add(2, 0x1f00ff00ff00ff, 0x20000000000000, 0x1000000000000001b);
    lemma_mulbv(0xadedb053e21b3270, 0xb5837f7159f74, 0x1000000000000001b, 64u32);
    lemma_powmod_add(2, 0x3f00ff00ff00ff, 0x40000000000000, 0x1000000000000001b);
    lemma_mulbv(0x6aa23f85e8bfe563, 0x551507a7ec9563d7, 0x1000000000000001b, 64u32);
    lemma_powmod_add(2, 0x7f00ff00ff00ff, 0x80000000000000, 0x1000000000000001b);
    lemma_mulbv(0x595f4d0366e98863, 0xfefb5bba15c4fcc9, 0x1000000000000001b, 64u32);
}

/// `2^0x663d80ff99c27f` in `gf2p64`.
proof fn gf2p64_power_663d80ff99c27f()
    ensures
        powmod(2, 0x663d80ff99c27f, 0x1000000000000001b) == 0x6bf808f7824282a2,
{
    lemma_gf2p64_sizes();
    gf2p64_products();
    gf2p64_squares();
    lemma_powmod_add(2, 0x1, 0x2, 0x1000000000000001b);
    lemma_mulbv(0x2, 0x4, 0x1000000000000001b, 64u32);
    lemma_powmod_add(2, 0x3, 0x4, 0x1000000000000001b);
    lemma_mulbv(0x8, 0x10, 0x1000000000000001b, 64u32);
    lemma_powmod_add(2, 0x7, 0x8, 0x1000000000000001b);
    lemma_mulbv(0x80, 0x100, 0x1000000000000001b, 64u32);
    lemma_powmod_add(2, 0xf, 0x10, 0x1000000000000001b);
    lemma_mulbv(0x8000, 0x10000, 0x1000000000000001b, 64u32);
    lemma_powmod_add(2, 0x1f, 0x20, 0x1000000000000001b);
    lemma_mulbv(0x80000000, 0x100000000, 0x1000000000000001b, 64u32);
    lemma_powmod_add(2, 0x3f, 0x40, 0x1000000000000001b);
    lemma_mulbv(0x8000000000000000, 0x1b, 0x1000000000000001b, 64u32);
    lemma_powmod_add(2, 0x7f, 0x200, 0x1000000000000001b);
    lemma_mulbv(0x80000000000000af, 0x101000101, 0x1000000000000001b, 64u32);
    lemma_powmod_add(2, 0x27f, 0x4000, 0x1000000000000001b);
    lemma_mulbv(0x800000a22280a22f, 0x11011011111b, 0x1000000000000001b, 64u32);
    lemma_powmod_add(2, 0x427f, 0x8000, 0x1000000000000001b);
    lemma_mulbv(0xa226d5f9e7d100, 0x10001011a1a015e, 0x1000000000000001b, 64u32);
    lemma_powmod_add(2, 0xc27f, 0x10000, 0x1000000000000001b);
    lemma_mulbv(0xd591c703b40e3d84, 0x15f0144001a114f, 0x1000000000000001b, 64u32);
    lemma_powmod_add(2, 0x1c27f, 0x80000, 0x1000000000000001b);
    lemma_mulbv(0x1f0ab472bf5ef1d7, 0x5455145e48670f13, 0x1000000000000001b, 64u32);
    lemma_powmod_add(2, 0x9c27f, 0x100000, 0x1000000000000001b);
    lemma_mulbv(0x350d51bf2876b237, 0xbaf1bebe1ae4ad02, 0x1000000000000001b, 64u32);
    lemma_powmod_add(2, 0x19c27f, 0x800000, 0x1000000000000001b);
    lemma_mulbv(0x53d700627a7f2312, 0x48380fd207a3b527, 0x1000000000000001b, 64u32);
    lemma_powmod_add(2, 0x99c27f, 0x1000000, 0x1000000000000001b);
    lemma_mulbv(0x8bec31535a6326e9, 0xb6d535c542116f62, 0x1000000000000001b, 64u32);
    lemma_powmod_add(2, 0x199c27f, 0x2000000, 0x1000000000000001b);
    lemma_mulbv(0x3e7ee234547a61a6, 0xa6df6baa62f965f5, 0x1000000000000001b, 64u32);
    lemma_powmod_add(2, 0x399c27f, 0x4000000, 0x1000000000000001b);
    lemma_mulbv(0x9864248c3e7b9af3, 0xb9df3947cea0ffe7, 0x1000000000000001b, 64u32);
    lemma_powmod_add(2, 0x799c27f, 0x8000000, 0x1000000000000001b);
    lemma_mulbv(0x61427ee6c4d8ac46, 0xe1882807248fe588, 0x1000000000000001b, 64u32);
    lemma_powmod_add(2, 0xf99c27f, 0x10000000, 0x1000000000000001b);
    lemma_mulbv(0x7877e2d17555efeb, 0x180d86953ed141c6, 0x1000000000000001b, 64u32);
    lemma_powmod_add(2, 0x1f99c27f, 0x20000000, 0x1000000000000001b);
    lemma_mulbv(0x79168a8a1d18cd9, 0x1894566cd1db8abf, 0x1000000000000001b, 64u32);
    lemma_powmod_add(2, 0x3f99c27f, 0x40000000, 0x1000000000000001b);
    lemma_mulbv(0xb3f9dd78c5d9c4cc, 0x4cc78bf4ea999e25, 0x1000000000000001b, 64u32);
    lemma_powmod_add(2, 0x7f99c27f, 0x80000000, 0x1000000000000001b);
    lemma_mulbv(0x62ae4d9ab7017409, 0xe333308087e402ba, 0x1000000000000001b, 64u32);
    lemma_powmod_add(2, 0xff99c27f, 0x8000000000, 0x1000000000000001b);
    lemma_mulbv(0x1c4ad2cc7dbca94e, 0x82c8dc57a143827, 0x1000000000000001b, 64u32);
    lemma_powmod_add(2, 0x80ff99c27f, 0x10000000000, 0x1000000000000001b);
    lemma_mulbv(0xcdca83dd7f3a2517, 0x13846a66c22c75be, 0x1000000000000001b, 64u32);
    lemma_powmod_add(2, 0x180ff99c27f, 0x40000000000, 0x1000000000000001b);
    lemma_mulbv(0x7842603ae69de253, 0xe6e383fc30ec5c40, 0x1000000000000001b, 64u32);
    lemma_powmod_add(2, 0x580ff99c27f, 0x80000000000, 0x1000000000000001b);
    lemma_mulbv(0xb6d2aa04e58e92a8, 0x18db4821d1201031, 0x1000000000000001b, 64u32);
    lemma_powmod_add(2, 0xd80ff99c27f, 0x100000000000, 0x1000000000000001b);
    lemma_mulbv(0x54039c643786b509, 0x4cc669b6b7c0691a, 0x1000000000000001b, 64u32);
    lemma_powmod_add(2, 0x1d80ff99c27f, 0x200000000000, 0x1000000000000001b);
    lemma_mulbv(0x8d28cfdcbb211576, 0xf26221ddce9cb783, 0x1000000000000001b, 64u32);
    lemma_powmod_add(2, 0x3d80ff99c27f, 0x2000000000000, 0x1000000000000001b);
    lemma_mulbv(0xe46321017b197950, 0x50a9adfa20f7c8d5, 0x1000000000000001b, 64u32);
    lemma_powmod_add(2, 0x23d80ff99c27f, 0x4000000000000, 0x1000000000000001b);
    lemma_mulbv(0x53cd6b38cac9e6b5, 0xaf06ffc8fb2c50a6, 0x1000000000000001b, 64u32);
    lemma_powmod_add(2, 0x63d80ff99c27f, 0x20000000000000, 0x1000000000000001b);
    lemma_mulbv(0x5c7e8b427941dc3, 0xb5837f7159f74, 0x1000000000000001b, 64u32);
    lemma_powmod_add(2, 0x263d80ff99c27f, 0x40000000000000, 0x1000000000000001b);
    lemma_mulbv(0x222fab200cfc6324, 0x551507a7ec9563d7, 0x1000000000000001b, 64u32);
}

/// `2^0xffff0000ffff` in `gf2p64`.
proof fn gf2p64_power_ffff0000ffff()
    ensures
        powmod(2, 0xffff0000ffff, 0x1000000000000001b) == 0x1c1e79669b95a7ce,
{
    lemma_gf2p64_sizes();
    gf2p64_products();
    gf2p64_squares();
    lemma_powmod_add(2, 0x1, 0x2, 0x1000000000000001b);
    lemma_mulbv(0x2, 0x4, 0x1000000000000001b, 64u32);
    lemma_powmod_add(2, 0x3, 0x4, 0x1000000000000001b);
    lemma_mulbv(0x8, 0x10, 0x1000000000000001b, 64u32);
    lemma_powmod_add(2, 0x7, 0x8, 0x1000000000000001b);
    lemma_mulbv(0x80, 0x100, 0x1000000000000001b, 64u32);
    lemma_powmod_add(2, 0xf, 0x10, 0x1000000000000001b);
    lemma_mulbv(0x8000, 0x10000, 0x1000000000000001b, 64u32);
    lemma_powmod_add(2, 0x1f, 0x20, 0x1000000000000001b);
    lemma_mulbv(0x80000000, 0x100000000, 0x1000000000000001b, 64u32);
    lemma_powmod_add(2, 0x3f, 0x40, 0x1000000000000001b);
    lemma_mulbv(0x8000000000000000, 0x1b, 0x1000000000000001b, 64u32);
    lemma_powmod_add(2, 0x7f, 0x80, 0x1000000000000001b);
    lemma_mulbv(0x80000000000000af, 0x145, 0x1000000000000001b, 64u32);
    lemma_powmod_add(2, 0xff, 0x100, 0x1000000000000001b);
    lemma_mulbv(0x8000000000008805, 0x11011, 0x1000000000000001b, 64u32);
    lemma_powmod_add(2, 0x1ff, 0x200, 0x1000000000000001b);
    lemma_mulbv(0x800000008080008d, 0x101000101, 0x1000000000000001b, 64u32);
    lemma_powmod_add(2, 0x3ff, 0x400, 0x1000000000000001b);
    lemma_mulbv(0x80000000800d, 0x100000001001a, 0x1000000000000001b, 64u32);
    lemma_powmod_add(2, 0x7ff, 0x800, 0x1000000000000001b);
    lemma_mulbv(0xd000000a2, 0x1a00000144, 0x1000000000000001b, 64u32);
    lemma_powmod_add(2, 0xfff, 0x1000, 0x1000000000000001b);
    lemma_mulbv(0x86de, 0x10dbc, 0x1000000000000001b, 64u32);
    lemma_powmod_add(2, 0x1fff, 0x2000, 0x1000000000000001b);
    lemma_mulbv(0x8028a2a8, 0x100514550, 0x1000000000000001b, 64u32);
    lemma_powmod_add(2, 0x3fff, 0x4000, 0x1000000000000001b);
    lemma_mulbv(0x8000088088088880, 0x11011011111b, 0x1000000000000001b, 64u32);
    lemma_powmod_add(2, 0x7fff, 0x8000, 0x1000000000000001b);
    lemma_mulbv(0x8000808d0d00af, 0x10001011a1a015e, 0x1000000000000001b, 64u32);
    lemma_powmod_add(2, 0xffff, 0x100000000, 0x1000000000000001b);
    lemma_mulbv(0x80af80a2000d08aa, 0x5c62236777028505, 0x1000000000000001b, 64u32);
    lemma_powmod_add(2, 0x10000ffff, 0x200000000, 0x1000000000000001b);
    lemma_mulbv(0x7d24f5cc3e6ef67b, 0xb964dc682c67ddcd, 0x1000000000000001b, 64u32);
    lemma_powmod_add(2, 0x30000ffff, 0x400000000, 0x1000000000000001b);
    lemma_mulbv(0x6ff8cc7b2e17ea73, 0xb58ac9a23d208acb, 0x1000000000000001b, 64u32);
    lemma_powmod_add(2, 0x70000ffff, 0x800000000, 0x1000000000000001b);
    lemma_mulbv(0x175ddea8a7ea78c9, 0xb3fcc2ab3699fc73, 0x1000000000000001b, 64u32);
    lemma_powmod_add(2, 0xf0000ffff, 0x1000000000, 0x1000000000000001b);
    lemma_mulbv(0x1312aab3f0eba71f, 0xb2644136253abfe8, 0x1000000000000001b, 64u32);
    lemma_powmod_add(2, 0x1f0000ffff, 0x2000000000, 0x1000000000000001b);
    lemma_mulbv(0x48f12728c78eedfa, 0xb37cd8f5f54e22c6, 0x1000000000000001b, 64u32);
    lemma_powmod_add(2, 0x3f0000ffff, 0x4000000000, 0x1000000000000001b);
    lemma_mulbv(0xf454d85204d15193, 0xe267d02369c356e5, 0x1000000000000001b, 64u32);
    lemma_powmod_add(2, 0x7f0000ffff, 0x8000000000, 0x1000000000000001b);
    lemma_mulbv(0x716b295a0c121753, 0x82c8dc57a143827, 0x1000000000000001b, 64u32);
    lemma_powmod_add(2, 0xff0000ffff, 0x10000000000, 0x1000000000000001b);
    lemma_mulbv(0x868f536d8bbe94c4, 0x13846a66c22c75be, 0x1000000000000001b, 64u32);
    lemma_powmod_add(2, 0x1ff0000ffff, 0x20000000000, 0x1000000000000001b);
    lemma_mulbv(0xcc2d8c7cc9e9c553, 0x4b75c5e1cfbc9888, 0x1000000000000001b, 64u32);
    lemma_powmod_add(2, 0x3ff0000ffff, 0x40000000000, 0x1000000000000001b);
    lemma_mulbv(0x2b0102670504fd7c, 0xe6e383fc30ec5c40, 0x1000000000000001b, 64u32);
    lemma_powmod_add(2, 0x7ff0000ffff, 0x80000000000, 0x1000000000000001b);
    lemma_mulbv(0x184471a8814ab6a0, 0x18db4821d1201031, 0x1000000000000001b, 64u32);
    lemma_powmod_add(2, 0xfff0000ffff, 0x100000000000, 0x1000000000000001b);
    lemma_mulbv(0x1769c844357fd407, 0x4cc669b6b7c0691a, 0x1000000000000001b, 64u32);
    lemma_powmod_add(2, 0x1fff0000ffff, 0x200000000000, 0x1000000000000001b);
    lemma_mulbv(0xa2e97556c3236f42, 0xf26221ddce9cb783, 0x1000000000000001b, 64u32);
    lemma_powmod_add(2, 0x3fff0000ffff, 0x400000000000, 0x1000000000000001b);
    lemma_mulbv(0x9eac51c5f521adba, 0x57399d3c29092c2f, 0x1000000000000001b, 64u32);
    lemma_powmod_add(2, 0x7fff0000ffff, 0x800000000000, 0x1000000000000001b);
    lemma_mulbv(0xaec7dd65b90bb2ad, 0xae86719cd83b743e, 0x1000000000000001b, 64u32);
}

/// `2^0x280fffffd7f` in `gf2p64`.
proof fn gf2p64_power_280fffffd7f()
    ensures
        powmod(2, 0x280fffffd7f, 0x1000000000000001b) == 0xf542601703f991,
{
    lemma_gf2p64_sizes();
    gf2p64_products();
    gf2p64_squares();
    lemma_powmod_add(2, 0x1, 0x2, 0x1000000000000001b);
    lemma_mulbv(0x2, 0x4, 0x1000000000000001b, 64u32);
    lemma_powmod_add(2, 0x3, 0x4, 0x1000000000000001b);
    lemma_mulbv(0x8, 0x10, 0x1000000000000001b, 64u32);
    lemma_powmod_add(2, 0x7, 0x8, 0x1000000000000001b);
    lemma_mulbv(0x80, 0x100, 0x1000000000000001b, 64u32);
    lemma_powmod_add(2, 0xf, 0x10, 0x1000000000000001b);
    lemma_mulbv(0x8000, 0x10000, 0x1000000000000001b, 64u32);
    lemma_powmod_add(2, 0x1f, 0x20, 0x1000000000000001b);
    lemma_mulbv(0x80000000, 0x100000000, 0x1000000000000001b, 64u32);
    lemma_powmod_add(2, 0x3f, 0x40, 0x1000000000000001b);
    lemma_mulbv(0x8000000000000000, 0x1b, 0x1000000000000001b, 64u32);
    lemma_powmod_add(2, 0x7f, 0x100, 0x1000000000000001b);
    lemma_mulbv(0x80000000000000af, 0x11011, 0x1000000000000001b, 64u32);
    lemma_powmod_add(2, 0x17f, 0x400, 0x1000000000000001b);
    lemma_mulbv(0x8000000000a8a287, 0x100000001001a, 0x1000000000000001b, 64u32);
    lemma_powmod_add(2, 0x57f, 0x800, 0x1000000000000001b);
    lemma_mulbv(0xa28a80a8ac14f7d1, 0x1a00000144, 0x1000000000000001b, 64u32);
    lemma_powmod_add(2, 0xd7f, 0x1000, 0x1000000000000001b);
    lemma_mulbv(0x5bcbac997a7a79ee, 0x10dbc, 0x1000000000000001b, 64u32);
    lemma_powmod_add(2, 0x1d7f, 0x2000, 0x1000000000000001b);
    lemma_mulbv(0x85898d91d656f2f3, 0x100514550, 0x1000000000000001b, 64u32);
    lemma_powmod_add(2, 0x3d7f, 0x4000, 0x1000000000000001b);
    lemma_mulbv(0x108bca09d9b4c5d5, 0x11011011111b, 0x1000000000000001b, 64u32);
    lemma_powmod_add(2, 0x7d7f, 0x8000, 0x1000000000000001b);
    lemma_mulbv(0x5c376e903edbd6b0, 0x10001011a1a015e, 0x1000000000000001b, 64u32);
    lemma_powmod_add(2, 0xfd7f, 0x10000, 0x1000000000000001b);
    lemma_mulbv(0x60c4892b4e073b8a, 0x15f0144001a114f, 0x1000000000000001b, 64u32);
    lemma_powmod_add(2, 0x1fd7f, 0x20000, 0x1000000000000001b);
    lemma_mulbv(0x447bfe2440a8caa5, 0x1aad43011ba1e5, 0x1000000000000001b, 64u32);
    lemma_powmod_add(2, 0x3fd7f, 0x40000, 0x1000000000000001b);
    lemma_mulbv(0x87924da53047a518, 0x11cefef6be466, 0x1000000000000001b, 64u32);
    lemma_powmod_add(2, 0x7fd7f, 0x80000, 0x1000000000000001b);
    lemma_mulbv(0x21572f7eac647c29, 0x5455145e48670f13, 0x1000000000000001b, 64u32);
    lemma_powmod_add(2, 0xffd7f, 0x100000, 0x1000000000000001b);
    lemma_mulbv(0x9ed5d18dcc0706db, 0xbaf1bebe1ae4ad02, 0x1000000000000001b, 64u32);
    lemma_powmod_add(2, 0x1ffd7f, 0x200000, 0x1000000000000001b);
    lemma_mulbv(0xa7a29d54ea25be32, 0xb0ef530df44bb042, 0x1000000000000001b, 64u32);
    lemma_powmod_add(2, 0x3ffd7f, 0x400000, 0x1000000000000001b);
    lemma_mulbv(0x98e29137bb851e91, 0xe2170b43ee771735, 0x1000000000000001b, 64u32);
    lemma_powmod_add(2, 0x7ffd7f, 0x800000, 0x1000000000000001b);
    lemma_mulbv(0x9fddc88a8ef8867b, 0x48380fd207a3b527, 0x1000000000000001b, 64u32);
    lemma_powmod_add(2, 0xfffd7f, 0x1000000, 0x1000000000000001b);
    lemma_mulbv(0x67f85d86032f5ad5, 0xb6d535c542116f62, 0x1000000000000001b, 64u32);
    lemma_powmod_add(2, 0x1fffd7f, 0x2000000, 0x1000000000000001b);
    lemma_mulbv(0xea4deb55066515b1, 0xa6df6baa62f965f5, 0x1000000000000001b, 64u32);
    lemma_powmod_add(2, 0x3fffd7f, 0x4000000, 0x1000000000000001b);
    lemma_mulbv(0x381e6852f9a15394, 0xb9df3947cea0ffe7, 0x1000000000000001b, 64u32);
    lemma_powmod_add(2, 0x7fffd7f, 0x8000000, 0x1000000000000001b);
    lemma_mulbv(0xb4fe234cd06b9b31, 0xe1882807248fe588, 0x1000000000000001b, 64u32);
    lemma_powmod_add(2, 0xffffd7f, 0x10000000, 0x1000000000000001b);
    lemma_mulbv(0x49ea46ee391d3a7c, 0x180d86953ed141c6, 0x1000000000000001b, 64u32);
    lemma_powmod_add(2, 0x1ffffd7f, 0x20000000, 0x1000000000000001b);
    lemma_mulbv(0xf4666fc9d5439071, 0x1894566cd1db8abf, 0x1000000000000001b, 64u32);
    lemma_powmod_add(2, 0x3ffffd7f, 0x40000000, 0x1000000000000001b);
    lemma_mulbv(0xd1037c7c0aca1c95, 0x4cc78bf4ea999e25, 0x1000000000000001b, 64u32);
    lemma_powmod_add(2, 0x7ffffd7f, 0x80000000, 0x1000000000000001b);
    lemma_mulbv(0x98c412f620b4128b, 0xe333308087e402ba, 0x1000000000000001b, 64u32);
    lemma_powmod_add(2, 0xfffffd7f, 0x8000000000, 0x1000000000000001b);
    lemma_mulbv(0x231c620d05d79c11, 0x82c8dc57a143827, 0x1000000000000001b, 64u32);
    lemma_powmod_add(2, 0x80fffffd7f, 0x20000000000, 0x1000000000000001b);
    lemma_mulbv(0x3fac918d91e0bfca, 0x4b75c5e1cfbc9888, 0x1000000000000001b, 64u32);
}

/// `2` has order `2^64 - 1` in `gf2p64`: `2^0xffffffffffffffff == 1`, and no smaller positive
/// power of `2` is one.
pub proof fn lemma_gf2p64_generator()
    ensures
        powmod(2, 0xffffffffffffffff, 0x1000000000000001b) == 1,
        forall|k: nat| 0 < k < 0xffffffffffffffff ==> #[trigger] powmod(2, k, 0x1000000000000001b) != 1,
{
    lemma_gf2p64_sizes();
    lemma_primes();
    gf2p64_power_ffffffffffffffff();
    gf2p64_power_5555555555555555();
    gf2p64_power_3333333333333333();
    gf2p64_power_f0f0f0f0f0f0f0f();
    gf2p64_power_ff00ff00ff00ff();
    gf2p64_power_663d80ff99c27f();
    gf2p64_power_ffff0000ffff();
    gf2p64_power_280fffffd7f();
    let s0: Seq<nat> = Seq::empty();
    assert(prod(s0) == 1);
    let s1: Seq<nat> = s0.push(3nat);
    assert(s1.drop_last() =~= s0);
    assert(s1.last() == 3);
    assert(prod(s1) == 3);
    let s2: Seq<nat> = s1.push(5nat);
    assert(s2.drop_last() =~= s1);
    assert(s2.last() == 5);
    assert(prod(s2) == 15);
    let s3: Seq<nat> = s2.push(17nat);
    assert(s3.drop_last() =~= s2);
    assert(s3.last() == 17);
    assert(prod(s3) == 255);
    let s4: Seq<nat> = s3.push(257nat);
    assert(s4.drop_last() =~= s3);
    assert(s4.last() == 257);
    assert(prod(s4) == 65535);
    let s5: Seq<nat> = s4.push(641nat);
    assert(s5.drop_last() =~= s4);
    assert(s5.last() == 641);
    assert(prod(s5) == 42007935);
    let s6: Seq<nat> = s5.push(65537nat);
    assert(s6.drop_last() =~= s5);
    assert(s6.last() == 65537);
    assert(prod(s6) == 2753074036095);
    let s7: Seq<nat> = s6.push(6700417nat);
    assert(s7.drop_last() =~= s6);
    assert(s7.last() == 6700417);
    assert(prod(s7) == 18446744073709551615);
    let ps = s7;
    assert forall|i: int| 0 <= i < ps.len() implies is_prime(#[trigger] ps[i]) by {
    }
    assert forall|i: int| 0 <= i < ps.len() implies #[trigger] powmod(2, (0xffffffffffffffff as nat) / ps[i], 0x1000000000000001b) != 1 by {
        if i == 0 {
            assert(ps[i] == 3);
            assert((0xffffffffffffffff as nat) / 3nat == 0x5555555555555555);
        } else if i == 1 {
            assert(ps[i] == 5);
            assert((0xffffffffffffffff as nat) / 5nat == 0x3333333333333333);
        } else if i == 2 {
            assert(ps[i] == 17);
            assert((0xffffffffffffffff as nat) / 17nat == 0xf0f0f0f0f0f0f0f);
        } else if i == 3 {
            assert(ps[i] == 257);
            assert((0xffffffffffffffff as nat) / 257nat == 0xff00ff00ff00ff);
        } else if i == 4 {
            assert(ps[i] == 641);
            assert((0xffffffffffffffff as nat) / 641nat == 0x663d80ff99c27f);
        } else if i == 5 {
            assert(ps[i] == 65537);
            assert((0xffffffffffffffff as nat) / 65537nat == 0xffff0000ffff);
        } else if i == 6 {
            assert(ps[i] == 6700417);
            assert((0xffffffffffffffff as nat) / 6700417nat == 0x280fffffd7f);
        }
    }
    lemma_order(2, 0x1000000000000001b, 64, 0xffffffffffffffff, ps);
}

/// Every non-zero element of `gf2p64` is a power `2^k` with `k < 2^64 - 1`,
/// the powers below `2^64 - 1` are non-zero and distinct, and every non-zero
/// element `b` satisfies `b^(2^64 - 1) == 1`.
pub proof fn lemma_gf2p64_field()
    ensures
        field_inverts(0x1000000000000001b, 64),
        forall|x: nat| x < 0xffffffffffffffff ==> #[trigger] powmod(2, x, 0x1000000000000001b) != 0,
        forall|x: nat, y: nat| x < 0xffffffffffffffff && y < 0xffffffffffffffff && x != y
            ==> #[trigger] powmod(2, x, 0x1000000000000001b) != #[trigger] powmod(2, y, 0x1000000000000001b),
{
    lemma_gf2p64_sizes();
    lemma_gf2p64_generator();
    lemma_generator_covers(2, 0x1000000000000001b, 64);
}

} // verus!
