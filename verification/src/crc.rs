//! Cyclic redundancy checks.
//!
//! A CRC of width `w` is the remainder of the message polynomial, shifted up
//! by `w` digits, modulo a polynomial of `w + 1` digits. The message is
//! absorbed a byte at a time into a `w`-digit register: `s' = (s * x^8 +
//! b * x^w) mod p`. Reflected CRCs reverse the digits of every byte and of the
//! register; the register starts from, and ends as, the CRC exclusive-or'd
//! with a constant.

use vstd::prelude::*;
use crate::poly::{
    exp2, bitlen, pxor, pmod, rev, lemma_exp2_pos, lemma_exp2_mono, lemma_pxor_bound,
    lemma_pxor_assoc, lemma_pxor_shift, lemma_pxor_digit, lemma_pxor_zero, lemma_pdivmod_pxor,
    lemma_pmod_pmul, lemma_pmul_exp2, lemma_pmod_small, lemma_bitlen_le, lemma_bitlen_exact,
    lemma_rev_bound, lemma_rev_rev, lemma_pxor_cancel, lemma_pxor_concat,
};
use crate::bits::{lemma_xor, lemma_shl, lemma_shr, lemma_exp2_values};
use crate::arith::{rev_u128, lemma_reduce_once};

verus! {

/// One byte `b` shifted into the CRC register `s`: the remainder of
/// `s * x^8 + b * x^w` modulo `poly`.
pub open spec fn crc_byte(s: nat, b: nat, poly: nat, w: nat) -> nat {
    pmod(pxor(s * exp2(8), b * exp2(w)), poly)
}

/// A byte as it enters the register: digit-reversed for a reflected CRC.
pub open spec fn crc_in_byte(b: u8, reflected: bool) -> nat {
    if reflected {
        rev(b as nat, 8)
    } else {
        b as nat
    }
}

/// The register after absorbing `data`, first byte first.
pub open spec fn crc_fold(s: nat, data: Seq<u8>, poly: nat, w: nat, reflected: bool) -> nat
    decreases data.len(),
{
    if data.len() == 0 {
        s
    } else {
        crc_fold(
            crc_byte(s, crc_in_byte(data[0], reflected), poly, w),
            data.drop_first(),
            poly,
            w,
            reflected,
        )
    }
}

/// The register that a CRC value stands for.
pub open spec fn crc_register(crc: nat, w: nat, reflected: bool, xor: nat) -> nat {
    if reflected {
        rev(pxor(crc, xor), w)
    } else {
        pxor(crc, xor)
    }
}

/// The CRC value that a register stands for.
pub open spec fn crc_value(s: nat, w: nat, reflected: bool, xor: nat) -> nat {
    pxor(if reflected { rev(s, w) } else { s }, xor)
}

/// The CRC of `data`, continuing from `crc`, the CRC of the data before it
/// (`0` for a fresh message).
pub open spec fn crc_spec(
    data: Seq<u8>,
    crc: nat,
    poly: nat,
    w: nat,
    reflected: bool,
    xor: nat,
) -> nat {
    crc_value(crc_fold(crc_register(crc, w, reflected, xor), data, poly, w, reflected), w, reflected, xor)
}

/// The parameters of a CRC that the functions here accept.
pub open spec fn crc_params_ok(poly: nat, w: nat, xor: nat) -> bool {
    &&& 1 <= w <= 64
    &&& bitlen(poly) == w + 1
    &&& xor < exp2(w)
}

/// One digit shifted into the register.
proof fn lemma_crc_bit_step(s0: nat, j: nat, hb: nat, bit: nat, poly: nat, w: nat, t: nat)
    requires
        bitlen(poly) == w + 1,
        bit < 2,
        t == pxor(2 * pmod(pxor(s0 * exp2(j), hb * exp2(w)), poly), bit * exp2(w)),
    ensures
        pmod(t, poly) == pmod(pxor(s0 * exp2(j + 1), (2 * hb + bit) * exp2(w)), poly),
{
    let x = pxor(s0 * exp2(j), hb * exp2(w));
    let y = pmod(x, poly);
    let c = bit * exp2(w);
    lemma_exp2_pos(w);
    assert(exp2(0) == 1);
    assert(exp2(1) == 2);
    // reducing before doubling changes nothing
    lemma_pmul_exp2(y, 1);
    lemma_pmul_exp2(x, 1);
    lemma_pmod_pmul(x, 2, poly);
    assert(pmod(2 * y, poly) == pmod(2 * x, poly));
    lemma_pdivmod_pxor(2 * y, c, poly);
    lemma_pdivmod_pxor(2 * x, c, poly);
    assert(pmod(t, poly) == pmod(pxor(2 * x, c), poly));
    // 2 * x == s0 * x^(j+1) + 2 * hb * x^w
    lemma_pxor_shift(s0 * exp2(j), hb * exp2(w), 1);
    assert(exp2(j + 1) == 2 * exp2(j));
    assert((s0 * exp2(j)) * 2 == s0 * exp2(j + 1)) by (nonlinear_arith)
        requires
            exp2(j + 1) == 2 * exp2(j),
    ;
    assert((hb * exp2(w)) * 2 == (2 * hb) * exp2(w)) by (nonlinear_arith);
    assert(2 * x == pxor(s0 * exp2(j + 1), (2 * hb) * exp2(w)));
    lemma_pxor_assoc(s0 * exp2(j + 1), (2 * hb) * exp2(w), c);
    lemma_pxor_shift(2 * hb, bit, w);
    lemma_pxor_digit(hb, 0, 0, bit);
    lemma_pxor_zero(hb);
    assert(pxor(2 * hb, bit) == 2 * hb + bit);
    assert(pxor((2 * hb) * exp2(w), c) == (2 * hb + bit) * exp2(w));
}

/// Shift one byte into the register, digit by digit.
fn crc_shift_byte(s: u128, b: u128, poly: u128, w: u32) -> (r: u128)
    requires
        crc_params_ok(poly as nat, w as nat, 0),
        (s as nat) < exp2(w as nat),
        b < 256,
    ensures
        r as nat == crc_byte(s as nat, b as nat, poly as nat, w as nat),
        (r as nat) < exp2(w as nat),
{
    let ghost s0 = s as nat;
    let mut t: u128 = s;
    let mut j: u32 = 0;
    proof {
        lemma_exp2_values();
        assert(exp2(8) == 256);
        lemma_crc_fold_start(s0, b as nat, poly as nat, w as nat);
    }
    while j < 8
        invariant
            crc_params_ok(poly as nat, w as nat, 0),
            s0 < exp2(w as nat),
            b < 256,
            j <= 8,
            (t as nat) < exp2(w as nat),
            t as nat == pmod(pxor(s0 * exp2(j as nat), (b as nat / exp2((8 - j) as nat)) * exp2(w as nat)), poly as nat),
        decreases 8 - j,
    {
        let k: u32 = 7 - j;
        let q: u128 = b >> k;
        let bit: u128 = q % 2;
        proof {
            lemma_exp2_values();
            lemma_shr(b, k);
            lemma_exp2_pos(k as nat);
            vstd::arithmetic::div_mod::lemma_div_denominator(b as int, exp2(k as nat) as int, 2);
            assert(exp2((8 - j) as nat) == 2 * exp2(k as nat));
            assert(q as nat == 2 * (b as nat / exp2((8 - j) as nat)) + bit);
            lemma_exp2_mono((w + 1) as nat, 65);
            lemma_exp2_mono(65, 128);
            assert(exp2((w + 1) as nat) == 2 * exp2(w as nat));
            lemma_shl(t, 1);
            assert(bit as nat * exp2(w as nat) <= exp2(w as nat)) by {
                if bit == 0 {
                    assert(bit as nat * exp2(w as nat) == 0);
                } else {
                    assert(bit == 1);
                    assert(bit as nat * exp2(w as nat) == exp2(w as nat)) by (nonlinear_arith)
                        requires
                            bit == 1,
                    ;
                }
            }
            lemma_shl(bit, w);
            lemma_exp2_mono(w as nat, (w + 1) as nat);
        }
        let d: u128 = (t << 1u32) ^ (bit << w);
        proof {
            lemma_xor(t << 1u32, bit << w);
            lemma_pxor_bound(2 * t as nat, bit as nat * exp2(w as nat), (w + 1) as nat);
            lemma_crc_bit_step(s0, j as nat, b as nat / exp2((8 - j) as nat), bit as nat, poly as nat, w as nat, d as nat);
            lemma_reduce_once(d as nat, poly as nat, w as nat);
            lemma_shl(1, w);
        }
        let limit: u128 = 1u128 << w;
        let mut u = d;
        if d >= limit {
            proof {
                lemma_xor(d, poly);
            }
            u = d ^ poly;
        }
        t = u;
        j = j + 1;
    }
    proof {
        assert(exp2(0) == 1);
        assert(b as nat / 1 == b as nat);
    }
    t
}

proof fn lemma_crc_fold_start(s0: nat, b: nat, poly: nat, w: nat)
    requires
        crc_params_ok(poly, w, 0),
        s0 < exp2(w),
        b < 256,
        exp2(8) == 256,
    ensures
        s0 == pmod(pxor(s0 * exp2(0), (b / exp2(8)) * exp2(w)), poly),
{
    assert(exp2(0) == 1);
    assert(b / exp2(8) == 0);
    lemma_pxor_zero(s0);
    lemma_bitlen_le(s0, w);
    lemma_pmod_small(s0, poly);
}

proof fn lemma_crc_fold_step(s: nat, data: Seq<u8>, i: int, poly: nat, w: nat, reflected: bool)
    requires
        0 <= i < data.len(),
    ensures
        crc_fold(s, data.skip(i), poly, w, reflected) == crc_fold(
            crc_byte(s, crc_in_byte(data[i], reflected), poly, w),
            data.skip(i + 1),
            poly,
            w,
            reflected,
        ),
{
    assert(data.skip(i).drop_first() =~= data.skip(i + 1));
}

/// The CRC of `data` (continuing from the CRC `crc` of earlier data), of
/// width `w`, for the polynomial `poly`, computed digit by digit.
pub fn crc_naive(data: &[u8], crc: u128, poly: u128, w: u32, reflected: bool, xor: u128) -> (r: u128)
    requires
        crc_params_ok(poly as nat, w as nat, xor as nat),
        (crc as nat) < exp2(w as nat),
    ensures
        r as nat == crc_spec(data@, crc as nat, poly as nat, w as nat, reflected, xor as nat),
        (r as nat) < exp2(w as nat),
{
    proof {
        lemma_xor(crc, xor);
        lemma_pxor_bound(crc as nat, xor as nat, w as nat);
        lemma_exp2_values();
        lemma_exp2_mono(w as nat, 128);
    }
    let mut s: u128 = crc ^ xor;
    if reflected {
        s = rev_u128(s, w);
    }
    let ghost s0 = s as nat;
    proof {
        assert(data@.skip(0) =~= data@);
    }
    let mut i: usize = 0;
    while i < data.len()
        invariant
            crc_params_ok(poly as nat, w as nat, xor as nat),
            i <= data@.len(),
            (s as nat) < exp2(w as nat),
            crc_fold(s0, data@, poly as nat, w as nat, reflected)
                == crc_fold(s as nat, data@.skip(i as int), poly as nat, w as nat, reflected),
        decreases data.len() - i,
    {
        let byte: u8 = data[i];
        let b: u128 = if reflected { rev_u128(byte as u128, 8) } else { byte as u128 };
        proof {
            lemma_exp2_values();
            lemma_crc_fold_step(s as nat, data@, i as int, poly as nat, w as nat, reflected);
        }
        s = crc_shift_byte(s, b, poly, w);
        i = i + 1;
    }
    proof {
        assert(data@.skip(i as int).len() == 0);
    }
    let t: u128 = if reflected { rev_u128(s, w) } else { s };
    proof {
        lemma_xor(t, xor);
        if reflected {
            lemma_rev_bound(s as nat, w as nat);
        }
        lemma_pxor_bound(t as nat, xor as nat, w as nat);
    }
    t ^ xor
}

/// With at least eight digits, shifting a byte into the register is a
/// look-up of its top eight digits, plus the byte, in the table of bytes
/// shifted into the zero register, plus the remaining digits shifted up by
/// eight.
pub proof fn lemma_crc_byte_table(s: nat, b: nat, poly: nat, w: nat)
    requires
        crc_params_ok(poly, w, 0),
        w >= 8,
        s < exp2(w),
        b < 256,
    ensures
        crc_byte(s, b, poly, w) == pxor(
            crc_byte(0, pxor(s / exp2((w - 8) as nat), b), poly, w),
            (s % exp2((w - 8) as nat)) * exp2(8),
        ),
{
    let k = (w - 8) as nat;
    let hi = s / exp2(k);
    let lo = s % exp2(k);
    let c = pxor(hi, b);
    lemma_exp2_pos(k);
    lemma_exp2_pos(8);
    crate::poly::lemma_exp2_add(k, 8);
    assert(k + 8 == w);
    vstd::arithmetic::div_mod::lemma_fundamental_div_mod(s as int, exp2(k) as int);
    vstd::arithmetic::div_mod::lemma_mod_bound(s as int, exp2(k) as int);
    assert(s * exp2(8) == hi * exp2(w) + lo * exp2(8)) by (nonlinear_arith)
        requires
            s == exp2(k) * hi + lo,
            exp2(w) == exp2(k) * exp2(8),
    ;
    assert(lo * exp2(8) < exp2(w)) by (nonlinear_arith)
        requires
            lo < exp2(k),
            exp2(w) == exp2(k) * exp2(8),
            exp2(8) > 0,
    ;
    lemma_pxor_concat(hi, lo * exp2(8), b, 0, w);
    lemma_pxor_zero(lo * exp2(8));
    crate::poly::lemma_pxor_disjoint(c, lo * exp2(8), w);
    assert(pxor(s * exp2(8), b * exp2(w)) == pxor(c * exp2(w), lo * exp2(8)));
    lemma_pdivmod_pxor(c * exp2(w), lo * exp2(8), poly);
    lemma_bitlen_le(lo * exp2(8), w);
    lemma_pmod_small(lo * exp2(8), poly);
    crate::poly::lemma_pxor_comm(0, c * exp2(w));
    lemma_pxor_zero(c * exp2(w));
    assert(0 * exp2(8) == 0);
}

/// The table of every byte `i` shifted into the zero register.
pub fn crc_table_entries(poly: u128, w: u32) -> (t: Vec<u128>)
    requires
        crc_params_ok(poly as nat, w as nat, 0),
    ensures
        t@.len() == 256,
        forall|i: int| 0 <= i < 256 ==> (#[trigger] t@[i]) as nat == crc_byte(0, i as nat, poly as nat, w as nat)
            && (t@[i] as nat) < exp2(w as nat),
{
    let mut t: Vec<u128> = Vec::new();
    let mut i: u128 = 0;
    proof {
        lemma_exp2_pos(w as nat);
    }
    while i < 256
        invariant
            crc_params_ok(poly as nat, w as nat, 0),
            i <= 256,
            t@.len() == i,
            forall|j: int| 0 <= j < i ==> (#[trigger] t@[j]) as nat == crc_byte(0, j as nat, poly as nat, w as nat)
                && (t@[j] as nat) < exp2(w as nat),
        decreases 256 - i,
    {
        proof {
            lemma_exp2_pos(w as nat);
        }
        let e = crc_shift_byte(0, i, poly, w);
        t.push(e);
        i = i + 1;
    }
    t
}

/// A byte shifted into a register of at least eight digits by a look-up in
/// the table of `crc_table_entries`.
pub(crate) fn crc_table_step(s: u128, b: u128, table: &Vec<u128>, poly: u128, w: u32) -> (r: u128)
    requires
        crc_params_ok(poly as nat, w as nat, 0),
        w >= 8,
        (s as nat) < exp2(w as nat),
        b < 256,
        table@.len() == 256,
        forall|j: int| 0 <= j < 256 ==> (#[trigger] table@[j]) as nat == crc_byte(0, j as nat, poly as nat, w as nat)
            && (table@[j] as nat) < exp2(w as nat),
    ensures
        r as nat == crc_byte(s as nat, b as nat, poly as nat, w as nat),
        (r as nat) < exp2(w as nat),
{
    let k: u32 = w - 8;
    proof {
        lemma_exp2_values();
        lemma_exp2_mono(w as nat, 64);
        lemma_exp2_mono(k as nat, 64);
        lemma_exp2_mono(64, 128);
        lemma_shr(s, k);
        lemma_shl(1, k);
        crate::poly::lemma_exp2_add(k as nat, 8);
        assert(k + 8 == w);
        lemma_exp2_pos(k as nat);
        vstd::arithmetic::div_mod::lemma_mod_bound(s as int, exp2(k as nat) as int);
        assert((s as nat) / exp2(k as nat) < 256) by (nonlinear_arith)
            requires
                (s as nat) < exp2(w as nat),
                exp2(w as nat) == exp2(k as nat) * 256,
                exp2(k as nat) > 0,
        ;
    }
    let hi: u128 = s >> k;
    let idx: u128 = hi ^ b;
    let lo: u128 = s % (1u128 << k);
    proof {
        lemma_xor(hi, b);
        lemma_pxor_bound(hi as nat, b as nat, 8);
        assert((lo as nat) * 256 < exp2(w as nat)) by (nonlinear_arith)
            requires
                (lo as nat) < exp2(k as nat),
                exp2(w as nat) == exp2(k as nat) * 256,
        ;
        lemma_shl(lo, 8);
        lemma_crc_byte_table(s as nat, b as nat, poly as nat, w as nat);
    }
    let e: u128 = table[idx as usize];
    let lo8: u128 = lo << 8u32;
    proof {
        lemma_xor(e, lo8);
        lemma_pxor_bound(e as nat, lo8 as nat, w as nat);
    }
    e ^ lo8
}

/// The CRC of `data` (continuing from the CRC `crc` of earlier data), of
/// width `w`, for the polynomial `poly`, computed a byte at a time with the
/// table of `crc_table_entries` (registers of fewer than eight digits go
/// digit by digit).
pub fn crc_table(data: &[u8], crc: u128, poly: u128, w: u32, reflected: bool, xor: u128) -> (r: u128)
    requires
        crc_params_ok(poly as nat, w as nat, xor as nat),
        (crc as nat) < exp2(w as nat),
    ensures
        r as nat == crc_spec(data@, crc as nat, poly as nat, w as nat, reflected, xor as nat),
        (r as nat) < exp2(w as nat),
{
    proof {
        lemma_xor(crc, xor);
        lemma_pxor_bound(crc as nat, xor as nat, w as nat);
        lemma_exp2_values();
        lemma_exp2_mono(w as nat, 128);
    }
    let table = crc_table_entries(poly, w);
    let mut s: u128 = crc ^ xor;
    if reflected {
        s = rev_u128(s, w);
    }
    let ghost s0 = s as nat;
    proof {
        assert(data@.skip(0) =~= data@);
    }
    let mut i: usize = 0;
    while i < data.len()
        invariant
            crc_params_ok(poly as nat, w as nat, xor as nat),
            i <= data@.len(),
            (s as nat) < exp2(w as nat),
            table@.len() == 256,
            forall|j: int| 0 <= j < 256 ==> (#[trigger] table@[j]) as nat == crc_byte(0, j as nat, poly as nat, w as nat)
                && (table@[j] as nat) < exp2(w as nat),
            crc_fold(s0, data@, poly as nat, w as nat, reflected)
                == crc_fold(s as nat, data@.skip(i as int), poly as nat, w as nat, reflected),
        decreases data.len() - i,
    {
        let byte: u8 = data[i];
        let b: u128 = if reflected { rev_u128(byte as u128, 8) } else { byte as u128 };
        proof {
            lemma_exp2_values();
            lemma_crc_fold_step(s as nat, data@, i as int, poly as nat, w as nat, reflected);
        }
        if w >= 8 {
            s = crc_table_step(s, b, &table, poly, w);
        } else {
            s = crc_shift_byte(s, b, poly, w);
        }
        i = i + 1;
    }
    proof {
        assert(data@.skip(i as int).len() == 0);
    }
    let t: u128 = if reflected { rev_u128(s, w) } else { s };
    proof {
        lemma_xor(t, xor);
        if reflected {
            lemma_rev_bound(s as nat, w as nat);
        }
        lemma_pxor_bound(t as nat, xor as nat, w as nat);
    }
    t ^ xor
}

/// Four digits `c` shifted into the CRC register `s`: the remainder of
/// `s * x^4 + c * x^w` modulo `poly`.
pub open spec fn crc_nibble(s: nat, c: nat, poly: nat, w: nat) -> nat {
    pmod(pxor(s * exp2(4), c * exp2(w)), poly)
}

/// Shifting a byte in is shifting in its high four digits, then its low
/// four digits.
pub proof fn lemma_crc_byte_nibbles(s: nat, b: nat, poly: nat, w: nat)
    requires
        crc_params_ok(poly, w, 0),
        b < 256,
    ensures
        crc_byte(s, b, poly, w) == crc_nibble(crc_nibble(s, b / 16, poly, w), b % 16, poly, w),
{
    let h = b / 16;
    let l = b % 16;
    let a = pxor(s * exp2(4), h * exp2(w));
    lemma_exp2_values();
    crate::poly::lemma_bitlen_bound(poly);
    lemma_exp2_pos(w);
    crate::poly::lemma_pmul_exp2(pmod(a, poly), 4);
    crate::poly::lemma_pmul_exp2(a, 4);
    lemma_pmod_pmul(a, exp2(4), poly);
    lemma_pdivmod_pxor(pmod(a, poly) * 16, l * exp2(w), poly);
    lemma_pdivmod_pxor(a * 16, l * exp2(w), poly);
    assert(crc_nibble(crc_nibble(s, h, poly, w), l, poly, w) == pmod(pxor(a * 16, l * exp2(w)), poly));
    lemma_pxor_shift(s * 16, h * exp2(w), 4);
    assert((s * 16) * 16 == s * 256) by (nonlinear_arith);
    assert((h * exp2(w)) * 16 == (h * 16) * exp2(w)) by (nonlinear_arith);
    assert(a * 16 == pxor(s * 256, (h * 16) * exp2(w)));
    lemma_pxor_assoc(s * 256, (h * 16) * exp2(w), l * exp2(w));
    lemma_pxor_shift(h * 16, l, w);
    crate::poly::lemma_pxor_disjoint(h, l, 4);
    assert(h * 16 + l == b);
    assert(pxor(h * 16, l) == b);
}

/// With at least four digits, shifting four digits into the register is a
/// look-up of its top four digits, plus the new ones, in the table of
/// digits shifted into the zero register, plus the remaining digits
/// shifted up by four.
pub proof fn lemma_crc_nibble_table(s: nat, c: nat, poly: nat, w: nat)
    requires
        crc_params_ok(poly, w, 0),
        w >= 4,
        s < exp2(w),
        c < 16,
    ensures
        crc_nibble(s, c, poly, w) == pxor(
            crc_byte(0, pxor(s / exp2((w - 4) as nat), c), poly, w),
            (s % exp2((w - 4) as nat)) * exp2(4),
        ),
{
    let k = (w - 4) as nat;
    let hi = s / exp2(k);
    let lo = s % exp2(k);
    let d = pxor(hi, c);
    lemma_exp2_pos(k);
    lemma_exp2_pos(4);
    crate::poly::lemma_exp2_add(k, 4);
    assert(k + 4 == w);
    vstd::arithmetic::div_mod::lemma_fundamental_div_mod(s as int, exp2(k) as int);
    vstd::arithmetic::div_mod::lemma_mod_bound(s as int, exp2(k) as int);
    assert(s * exp2(4) == hi * exp2(w) + lo * exp2(4)) by (nonlinear_arith)
        requires
            s == exp2(k) * hi + lo,
            exp2(w) == exp2(k) * exp2(4),
    ;
    assert(lo * exp2(4) < exp2(w)) by (nonlinear_arith)
        requires
            lo < exp2(k),
            exp2(w) == exp2(k) * exp2(4),
            exp2(4) > 0,
    ;
    lemma_pxor_concat(hi, lo * exp2(4), c, 0, w);
    lemma_pxor_zero(lo * exp2(4));
    crate::poly::lemma_pxor_disjoint(d, lo * exp2(4), w);
    assert(pxor(s * exp2(4), c * exp2(w)) == pxor(d * exp2(w), lo * exp2(4)));
    lemma_pdivmod_pxor(d * exp2(w), lo * exp2(4), poly);
    lemma_bitlen_le(lo * exp2(4), w);
    lemma_pmod_small(lo * exp2(4), poly);
    crate::poly::lemma_pxor_comm(0, d * exp2(w));
    lemma_pxor_zero(d * exp2(w));
    assert(0 * exp2(8) == 0);
}

/// Four digits shifted into the register by a look-up in the table of
/// `crc_small_table_entries`.
pub(crate) fn crc_nibble_step(s: u128, c: u128, table: &Vec<u128>, poly: u128, w: u32) -> (r: u128)
    requires
        crc_params_ok(poly as nat, w as nat, 0),
        w >= 4,
        (s as nat) < exp2(w as nat),
        c < 16,
        table@.len() == 16,
        forall|j: int| 0 <= j < 16 ==> (#[trigger] table@[j]) as nat == crc_byte(0, j as nat, poly as nat, w as nat)
            && (table@[j] as nat) < exp2(w as nat),
    ensures
        r as nat == crc_nibble(s as nat, c as nat, poly as nat, w as nat),
        (r as nat) < exp2(w as nat),
{
    let k: u32 = w - 4;
    proof {
        lemma_exp2_values();
        lemma_exp2_mono(w as nat, 64);
        lemma_exp2_mono(k as nat, 64);
        lemma_exp2_mono(64, 128);
        lemma_shr(s, k);
        lemma_shl(1, k);
        crate::poly::lemma_exp2_add(k as nat, 4);
        assert(k + 4 == w);
        lemma_exp2_pos(k as nat);
        vstd::arithmetic::div_mod::lemma_mod_bound(s as int, exp2(k as nat) as int);
        assert((s as nat) / exp2(k as nat) < 16) by (nonlinear_arith)
            requires
                (s as nat) < exp2(w as nat),
                exp2(w as nat) == exp2(k as nat) * 16,
                exp2(k as nat) > 0,
        ;
    }
    let hi: u128 = s >> k;
    let idx: u128 = hi ^ c;
    let lo: u128 = s % (1u128 << k);
    proof {
        lemma_xor(hi, c);
        lemma_pxor_bound(hi as nat, c as nat, 4);
        assert((lo as nat) * 16 < exp2(w as nat)) by (nonlinear_arith)
            requires
                (lo as nat) < exp2(k as nat),
                exp2(w as nat) == exp2(k as nat) * 16,
        ;
        lemma_shl(lo, 4);
        lemma_crc_nibble_table(s as nat, c as nat, poly as nat, w as nat);
    }
    let e: u128 = table[idx as usize];
    let lo4: u128 = lo << 4u32;
    proof {
        lemma_xor(e, lo4);
        lemma_pxor_bound(e as nat, lo4 as nat, w as nat);
    }
    e ^ lo4
}

/// The small table: every four digits `i` shifted into the zero register.
pub fn crc_small_table_entries(poly: u128, w: u32) -> (t: Vec<u128>)
    requires
        crc_params_ok(poly as nat, w as nat, 0),
    ensures
        t@.len() == 16,
        forall|i: int| 0 <= i < 16 ==> (#[trigger] t@[i]) as nat == crc_byte(0, i as nat, poly as nat, w as nat)
            && (t@[i] as nat) < exp2(w as nat),
{
    let mut t: Vec<u128> = Vec::new();
    let mut i: u128 = 0;
    proof {
        lemma_exp2_pos(w as nat);
    }
    while i < 16
        invariant
            crc_params_ok(poly as nat, w as nat, 0),
            i <= 16,
            t@.len() == i,
            forall|j: int| 0 <= j < i ==> (#[trigger] t@[j]) as nat == crc_byte(0, j as nat, poly as nat, w as nat)
                && (t@[j] as nat) < exp2(w as nat),
        decreases 16 - i,
    {
        proof {
            lemma_exp2_pos(w as nat);
        }
        let e = crc_shift_byte(0, i, poly, w);
        t.push(e);
        i = i + 1;
    }
    t
}

/// The CRC of `data` (continuing from the CRC `crc` of earlier data), of
/// width `w`, for the polynomial `poly`, computed four digits at a time
/// with the table of `crc_small_table_entries` (registers of fewer than
/// four digits go digit by digit).
pub fn crc_small_table(data: &[u8], crc: u128, poly: u128, w: u32, reflected: bool, xor: u128) -> (r: u128)
    requires
        crc_params_ok(poly as nat, w as nat, xor as nat),
        (crc as nat) < exp2(w as nat),
    ensures
        r as nat == crc_spec(data@, crc as nat, poly as nat, w as nat, reflected, xor as nat),
        (r as nat) < exp2(w as nat),
{
    proof {
        lemma_xor(crc, xor);
        lemma_pxor_bound(crc as nat, xor as nat, w as nat);
        lemma_exp2_values();
        lemma_exp2_mono(w as nat, 128);
    }
    let table = crc_small_table_entries(poly, w);
    let mut s: u128 = crc ^ xor;
    if reflected {
        s = rev_u128(s, w);
    }
    let ghost s0 = s as nat;
    proof {
        assert(data@.skip(0) =~= data@);
    }
    let mut i: usize = 0;
    while i < data.len()
        invariant
            crc_params_ok(poly as nat, w as nat, xor as nat),
            i <= data@.len(),
            (s as nat) < exp2(w as nat),
            table@.len() == 16,
            forall|j: int| 0 <= j < 16 ==> (#[trigger] table@[j]) as nat == crc_byte(0, j as nat, poly as nat, w as nat)
                && (table@[j] as nat) < exp2(w as nat),
            crc_fold(s0, data@, poly as nat, w as nat, reflected)
                == crc_fold(s as nat, data@.skip(i as int), poly as nat, w as nat, reflected),
        decreases data.len() - i,
    {
        let byte: u8 = data[i];
        let b: u128 = if reflected { rev_u128(byte as u128, 8) } else { byte as u128 };
        proof {
            lemma_exp2_values();
            lemma_crc_fold_step(s as nat, data@, i as int, poly as nat, w as nat, reflected);
        }
        if w >= 4 {
            let h: u128 = b / 16;
            let l: u128 = b % 16;
            proof {
                lemma_crc_byte_nibbles(s as nat, b as nat, poly as nat, w as nat);
            }
            let s1 = crc_nibble_step(s, h, &table, poly, w);
            s = crc_nibble_step(s1, l, &table, poly, w);
        } else {
            s = crc_shift_byte(s, b, poly, w);
        }
        i = i + 1;
    }
    proof {
        assert(data@.skip(i as int).len() == 0);
    }
    let t: u128 = if reflected { rev_u128(s, w) } else { s };
    proof {
        lemma_xor(t, xor);
        if reflected {
            lemma_rev_bound(s as nat, w as nat);
        }
        lemma_pxor_bound(t as nat, xor as nat, w as nat);
    }
    t ^ xor
}

/// Reading the register back from the CRC value gives the same register.
pub proof fn lemma_crc_register_value(s: nat, w: nat, reflected: bool, xor: nat)
    requires
        s < exp2(w),
    ensures
        crc_register(crc_value(s, w, reflected, xor), w, reflected, xor) == s,
{
    let t = if reflected { rev(s, w) } else { s };
    lemma_pxor_cancel(t, xor);
    if reflected {
        lemma_rev_rev(s, w);
    }
}

/// Absorbing two pieces of data one after the other is absorbing their
/// concatenation.
pub proof fn lemma_crc_fold_concat(s: nat, a: Seq<u8>, b: Seq<u8>, poly: nat, w: nat, reflected: bool)
    ensures
        crc_fold(s, a + b, poly, w, reflected) == crc_fold(crc_fold(s, a, poly, w, reflected), b, poly, w, reflected),
    decreases a.len(),
{
    if a.len() > 0 {
        assert((a + b).drop_first() =~= a.drop_first() + b);
        assert((a + b)[0] == a[0]);
        lemma_crc_fold_concat(
            crc_byte(s, crc_in_byte(a[0], reflected), poly, w),
            a.drop_first(),
            b,
            poly,
            w,
            reflected,
        );
    } else {
        assert(a + b =~= b);
    }
}

/// The register stays reduced.
pub proof fn lemma_crc_fold_bound(s: nat, data: Seq<u8>, poly: nat, w: nat, reflected: bool)
    requires
        bitlen(poly) == w + 1,
        s < exp2(w),
    ensures
        crc_fold(s, data, poly, w, reflected) < exp2(w),
    decreases data.len(),
{
    if data.len() > 0 {
        let x = pxor(s * exp2(8), crc_in_byte(data[0], reflected) * exp2(w));
        crate::poly::lemma_pmod_bound(x, poly);
        lemma_crc_fold_bound(crc_byte(s, crc_in_byte(data[0], reflected), poly, w), data.drop_first(), poly, w, reflected);
    }
}

/// A CRC can be computed piecewise: the CRC of `b` continuing from the CRC
/// of `a` is the CRC of `a` followed by `b`.
pub proof fn lemma_crc_concat(a: Seq<u8>, b: Seq<u8>, crc: nat, poly: nat, w: nat, reflected: bool, xor: nat)
    requires
        crc_params_ok(poly, w, xor),
        crc < exp2(w),
    ensures
        crc_spec(b, crc_spec(a, crc, poly, w, reflected, xor), poly, w, reflected, xor)
            == crc_spec(a + b, crc, poly, w, reflected, xor),
{
    let s0 = crc_register(crc, w, reflected, xor);
    lemma_pxor_bound(crc, xor, w);
    if reflected {
        lemma_rev_bound(pxor(crc, xor), w);
    }
    let s1 = crc_fold(s0, a, poly, w, reflected);
    lemma_crc_fold_bound(s0, a, poly, w, reflected);
    lemma_crc_register_value(s1, w, reflected, xor);
    lemma_crc_fold_concat(s0, a, b, poly, w, reflected);
}

/// The number whose big-endian bytes are `d`.
pub open spec fn be_value(d: Seq<u8>) -> nat
    decreases d.len(),
{
    if d.len() == 0 {
        0
    } else {
        (d[0] as nat) * exp2(8 * (d.len() - 1) as nat) + be_value(d.drop_first())
    }
}

proof fn lemma_be_value_bound(d: Seq<u8>)
    ensures
        be_value(d) < exp2(8 * d.len()),
    decreases d.len(),
{
    if d.len() > 0 {
        let k = (8 * (d.len() - 1)) as nat;
        lemma_be_value_bound(d.drop_first());
        crate::poly::lemma_exp2_add(8, k);
        assert(exp2(8) == 256) by {
            reveal_with_fuel(exp2, 9);
        }
        assert((d[0] as nat) * exp2(k) + be_value(d.drop_first()) < 256 * exp2(k)) by (nonlinear_arith)
            requires
                d[0] < 256,
                be_value(d.drop_first()) < exp2(k),
        ;
        assert(8 + k == 8 * d.len());
    }
}

/// Absorbing bytes into an unreflected register: the register `s` shifted
/// by all their digits, plus their big-endian number shifted by `w`,
/// modulo `poly`.
pub proof fn lemma_crc_fold_value(s: nat, d: Seq<u8>, poly: nat, w: nat)
    requires
        bitlen(poly) == w + 1,
        s < exp2(w),
    ensures
        crc_fold(s, d, poly, w, false) == pmod(pxor(s * exp2(8 * d.len()), be_value(d) * exp2(w)), poly),
    decreases d.len(),
{
    lemma_exp2_pos(w);
    crate::poly::lemma_bitlen_bound(poly);
    if d.len() == 0 {
        assert(exp2(0) == 1) by {
            reveal_with_fuel(exp2, 1);
        }
        assert(8 * d.len() == 0);
        assert(s * exp2(8 * d.len()) == s * 1);
        assert(be_value(d) == 0);
        assert(be_value(d) * exp2(w) == 0) by (nonlinear_arith)
            requires
                be_value(d) == 0,
        ;
        lemma_pxor_zero(s);
        assert(crc_fold(s, d, poly, w, false) == s);
        lemma_bitlen_le(s, w);
        lemma_pmod_small(s, poly);
    } else {
        let n = d.len();
        let k = (8 * (n - 1)) as nat;
        let r = d.drop_first();
        let d0 = d[0] as nat;
        let a = pxor(s * exp2(8), d0 * exp2(w));
        let s1 = pmod(a, poly);
        crate::poly::lemma_pmod_bound(a, poly);
        lemma_crc_fold_value(s1, r, poly, w);
        let bb = be_value(r) * exp2(w);
        // pmod(s1 * x^k + bb) == pmod(a * x^k + bb)
        lemma_pmul_exp2(s1, k);
        lemma_pmul_exp2(a, k);
        lemma_pmod_pmul(a, exp2(k), poly);
        lemma_pdivmod_pxor(s1 * exp2(k), bb, poly);
        lemma_pdivmod_pxor(a * exp2(k), bb, poly);
        // a * x^k == s * x^(8n) + d0 * x^(w + k)
        lemma_pxor_shift(s * exp2(8), d0 * exp2(w), k);
        crate::poly::lemma_exp2_add(8, k);
        crate::poly::lemma_exp2_add(w, k);
        crate::poly::lemma_exp2_add(k, w);
        assert(s * exp2(8) * exp2(k) == s * exp2(8 * n)) by (nonlinear_arith)
            requires
                exp2(8 + k) == exp2(8) * exp2(k),
                8 + k == 8 * n,
        ;
        assert(d0 * exp2(w) * exp2(k) == d0 * exp2(k) * exp2(w)) by (nonlinear_arith);
        // d0 * x^(k + w) + be(r) * x^w == be(d) * x^w
        lemma_pxor_shift(d0 * exp2(k), be_value(r), w);
        lemma_be_value_bound(r);
        crate::poly::lemma_pxor_disjoint(d0, be_value(r), k);
        lemma_pxor_assoc(s * exp2(8 * n), d0 * exp2(k) * exp2(w), bb);
    }
}

/// An unreflected CRC with no exclusive-or is the remainder of the
/// message, read as a polynomial (first byte highest) and shifted up by
/// `w` digits, modulo the polynomial.
pub proof fn lemma_crc_is_remainder(data: Seq<u8>, poly: nat, w: nat)
    requires
        crc_params_ok(poly, w, 0),
    ensures
        crc_spec(data, 0, poly, w, false, 0) == pmod(be_value(data) * exp2(w), poly),
{
    lemma_exp2_pos(w);
    lemma_pxor_zero(0);
    assert(crc_register(0, w, false, 0) == 0);
    lemma_crc_fold_value(0, data, poly, w);
    assert(0 * exp2(8 * data.len()) == 0);
    lemma_pxor_zero(be_value(data) * exp2(w));
    let r = crc_fold(0, data, poly, w, false);
    lemma_pxor_zero(r);
}

/// Appending to a message the big-endian bytes of its CRC, for an
/// unreflected CRC with no final exclusive-or and a width of whole bytes,
/// makes a message whose CRC is zero.
pub proof fn lemma_crc_append_zero(data: Seq<u8>, tail: Seq<u8>, poly: nat, w: nat)
    requires
        crc_params_ok(poly, w, 0),
        8 * tail.len() == w,
        be_value(tail) == crc_spec(data, 0, poly, w, false, 0),
    ensures
        crc_spec(data + tail, 0, poly, w, false, 0) == 0,
{
    lemma_exp2_pos(w);
    lemma_pxor_zero(0);
    assert(crc_register(0, w, false, 0) == 0);
    let s = crc_fold(0, data, poly, w, false);
    lemma_crc_fold_bound(0, data, poly, w, false);
    lemma_pxor_zero(s);
    assert(crc_spec(data, 0, poly, w, false, 0) == s);
    lemma_crc_fold_concat(0, data, tail, poly, w, false);
    lemma_crc_fold_value(s, tail, poly, w);
    crate::poly::lemma_pxor_self(s * exp2(w));
    crate::poly::lemma_bitlen_bound(poly);
    lemma_pmod_small(0, poly);
}

proof fn lemma_crc_poly_facts()
    ensures
        crc_params_ok(0x107, 8, 0xff),
        crc_params_ok(0x11021, 16, 0xffff),
        crc_params_ok(0x104c11db7, 32, 0xffff_ffff),
        crc_params_ok(0x11edc6f41, 32, 0xffff_ffff),
        crc_params_ok(0x142f0e1eba9ea3693, 64, 0xffff_ffff_ffff_ffff),
        exp2(8) == 0x100,
        exp2(16) == 0x1_0000,
        exp2(32) == 0x1_0000_0000,
        exp2(64) == 0x1_0000_0000_0000_0000,
{
    lemma_exp2_values();
    assert(exp2(9) == 2 * exp2(8));
    assert(exp2(17) == 2 * exp2(16));
    assert(exp2(33) == 2 * exp2(32));
    assert(exp2(65) == 2 * exp2(64));
    lemma_bitlen_exact(0x107, 9);
    lemma_bitlen_exact(0x11021, 17);
    lemma_bitlen_exact(0x104c11db7, 33);
    lemma_bitlen_exact(0x11edc6f41, 33);
    lemma_bitlen_exact(0x142f0e1eba9ea3693, 65);
}

/// CRC-8 with polynomial `0x107`, reflected, inverted.
pub fn crc8(data: &[u8], crc: u8) -> (r: u8)
    ensures
        r as nat == crc_spec(data@, crc as nat, 0x107, 8, true, 0xff),
{
    proof {
        lemma_crc_poly_facts();
    }
    crc_naive(data, crc as u128, 0x107, 8, true, 0xff) as u8
}

/// CRC-16 with polynomial `0x11021`, reflected, inverted.
pub fn crc16(data: &[u8], crc: u16) -> (r: u16)
    ensures
        r as nat == crc_spec(data@, crc as nat, 0x11021, 16, true, 0xffff),
{
    proof {
        lemma_crc_poly_facts();
    }
    crc_naive(data, crc as u128, 0x11021, 16, true, 0xffff) as u16
}

/// CRC-32 with polynomial `0x104c11db7`, reflected, inverted.
pub fn crc32(data: &[u8], crc: u32) -> (r: u32)
    ensures
        r as nat == crc_spec(data@, crc as nat, 0x104c11db7, 32, true, 0xffff_ffff),
{
    proof {
        lemma_crc_poly_facts();
    }
    crc_naive(data, crc as u128, 0x104c11db7, 32, true, 0xffff_ffff) as u32
}

/// CRC-32C (Castagnoli) with polynomial `0x11edc6f41`, reflected, inverted.
pub fn crc32c(data: &[u8], crc: u32) -> (r: u32)
    ensures
        r as nat == crc_spec(data@, crc as nat, 0x11edc6f41, 32, true, 0xffff_ffff),
{
    proof {
        lemma_crc_poly_facts();
    }
    crc_naive(data, crc as u128, 0x11edc6f41, 32, true, 0xffff_ffff) as u32
}

/// CRC-64 with polynomial `0x142f0e1eba9ea3693`, reflected, inverted.
pub fn crc64(data: &[u8], crc: u64) -> (r: u64)
    ensures
        r as nat == crc_spec(data@, crc as nat, 0x142f0e1eba9ea3693, 64, true, 0xffff_ffff_ffff_ffff),
{
    proof {
        lemma_crc_poly_facts();
    }
    crc_naive(data, crc as u128, 0x142f0e1eba9ea3693, 64, true, 0xffff_ffff_ffff_ffff) as u64
}

} // verus!
