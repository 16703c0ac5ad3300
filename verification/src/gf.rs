//! Galois-field types.
//!
//! Each type here is a binary-extension finite field `GF(2^w)`: its elements
//! are the binary polynomials of fewer than `w` digits, added digit-wise
//! modulo 2 (exclusive or) and multiplied modulo an irreducible polynomial of
//! `w + 1` digits. Division multiplies by the inverse `b^(2^w - 2)`.

#![allow(non_camel_case_types)]

use vstd::prelude::*;
use crate::poly::{exp2, bitlen, pxor, mulmod, powmod, lemma_exp2_pos};
use crate::bits::lemma_xor;
use crate::arith::{mulmod_u128, powmod_u128};
use crate::field::{lemma_add_laws, lemma_mul_laws, lemma_div_laws};

verus! {

/// The field `GF(2^4)` defined by the polynomial `0x13`, with generator `0x2`.
#[derive(Clone, Copy, Debug, PartialEq, Eq, Structural)]
pub struct gf16(pub u8);

/// `gf16` has `4`-digit elements and the defining polynomial has `5` digits.
proof fn gf16_poly_facts()
    ensures
        bitlen(0x13) == 5,
        exp2(4) == 0x10,
{
    reveal_with_fuel(bitlen, 7);
    reveal_with_fuel(exp2, 7);
}

impl gf16 {
    /// The irreducible polynomial that defines the field.
    pub const POLYNOMIAL: u128 = 0x13;
    /// The number of non-zero elements.
    pub const NONZEROS: u8 = 0xf;

    /// The element's digits are within the field's width.
    pub open spec fn wf(self) -> bool {
        (self.0 as nat) < exp2(4)
    }

    /// A generator of the multiplicative group of the field.
    pub fn generator() -> (r: gf16)
        ensures
            r.0 == 0x2,
            r.wf(),
    {
        proof {
            gf16_poly_facts();
        }
        gf16(0x2)
    }

    pub fn new(x: u8) -> (r: gf16)
        requires
            (x as nat) < exp2(4),
        ensures
            r.0 == x,
            r.wf(),
    {
        proof {
            gf16_poly_facts();
        }
        gf16(x)
    }

    pub fn get(self) -> (r: u8)
        ensures
            r == self.0,
    {
        self.0
    }

    /// Field addition, the exclusive or of the digits.
    pub fn naive_add(self, other: gf16) -> (r: gf16)
        requires
            self.wf(),
            other.wf(),
        ensures
            r.0 == self.0 ^ other.0,
            r.0 as nat == pxor(self.0 as nat, other.0 as nat),
            r.wf(),
    {
        proof {
            lemma_xor(self.0 as u128, other.0 as u128);
            let (a, b) = (self.0, other.0);
            assert((a ^ b) as u128 == (a as u128) ^ (b as u128)) by (bit_vector);
            crate::poly::lemma_pxor_bound(a as nat, b as nat, 4);
        }
        gf16(self.0 ^ other.0)
    }

    /// Field subtraction, which is the same as addition.
    pub fn naive_sub(self, other: gf16) -> (r: gf16)
        requires
            self.wf(),
            other.wf(),
        ensures
            r.0 == self.0 ^ other.0,
            r.0 as nat == pxor(self.0 as nat, other.0 as nat),
            r.wf(),
    {
        self.naive_add(other)
    }

    /// Field multiplication: the product modulo the field's polynomial.
    pub fn naive_mul(self, other: gf16) -> (r: gf16)
        requires
            self.wf(),
            other.wf(),
        ensures
            r.0 as nat == mulmod(self.0 as nat, other.0 as nat, 0x13),
            r.wf(),
    {
        proof {
            gf16_poly_facts();
        }
        let r = mulmod_u128(self.0 as u128, other.0 as u128, 0x13, 4);
        gf16(r as u8)
    }

    /// `self` raised to the power `exp`.
    pub fn naive_pow(self, exp: u8) -> (r: gf16)
        requires
            self.wf(),
        ensures
            r.0 as nat == powmod(self.0 as nat, exp as nat, 0x13),
            r.wf(),
    {
        proof {
            gf16_poly_facts();
        }
        let r = powmod_u128(self.0 as u128, exp as u128, 0x13, 4);
        gf16(r as u8)
    }

    /// The multiplicative inverse, `self^(2^4 - 2)`; zero has none.
    pub fn naive_recip(self) -> (r: gf16)
        requires
            self.wf(),
            self.0 != 0,
        ensures
            r.0 as nat == powmod(self.0 as nat, (exp2(4) - 2) as nat, 0x13),
            r.wf(),
    {
        proof {
            gf16_poly_facts();
        }
        self.naive_pow(0xe)
    }

    /// Field division: multiplication by the inverse of the divisor.
    pub fn naive_div(self, other: gf16) -> (r: gf16)
        requires
            self.wf(),
            other.wf(),
            other.0 != 0,
        ensures
            r.0 as nat == mulmod(self.0 as nat, powmod(other.0 as nat, (exp2(4) - 2) as nat, 0x13), 0x13),
            r.wf(),
    {
        self.naive_mul(other.naive_recip())
    }

    /// Field multiplication.
    pub fn mul(self, other: gf16) -> (r: gf16)
        requires
            self.wf(),
            other.wf(),
        ensures
            r.0 as nat == mulmod(self.0 as nat, other.0 as nat, 0x13),
            r.wf(),
    {
        self.naive_mul(other)
    }

    /// `self` raised to the power `exp`.
    pub fn pow(self, exp: u8) -> (r: gf16)
        requires
            self.wf(),
        ensures
            r.0 as nat == powmod(self.0 as nat, exp as nat, 0x13),
            r.wf(),
    {
        self.naive_pow(exp)
    }

    /// The multiplicative inverse; zero has none.
    pub fn recip(self) -> (r: gf16)
        requires
            self.wf(),
            self.0 != 0,
        ensures
            r.0 as nat == powmod(self.0 as nat, (exp2(4) - 2) as nat, 0x13),
            r.wf(),
    {
        self.naive_recip()
    }

    /// The inverse, or `None` for zero.
    pub fn checked_recip(self) -> (r: Option<gf16>)
        requires
            self.wf(),
        ensures
            r is Some <==> self.0 != 0,
            r matches Some(x) ==> x.0 as nat == powmod(self.0 as nat, (exp2(4) - 2) as nat, 0x13),
    {
        if self.0 == 0 {
            None
        } else {
            Some(self.naive_recip())
        }
    }

    /// The quotient, or `None` when dividing by zero.
    pub fn checked_div(self, other: gf16) -> (r: Option<gf16>)
        requires
            self.wf(),
            other.wf(),
        ensures
            r is Some <==> other.0 != 0,
            r matches Some(x) ==> x.0 as nat
                == mulmod(self.0 as nat, powmod(other.0 as nat, (exp2(4) - 2) as nat, 0x13), 0x13),
    {
        if other.0 == 0 {
            None
        } else {
            Some(self.naive_div(other))
        }
    }
}

impl core::ops::Add for gf16 {
    type Output = gf16;

    fn add(self, other: gf16) -> (r: gf16) {
        self.naive_add(other)
    }
}

impl vstd::std_specs::ops::AddSpecImpl for gf16 {
    open spec fn obeys_add_spec() -> bool {
        true
    }

    open spec fn add_req(self, other: gf16) -> bool {
        self.wf() && other.wf()
    }

    open spec fn add_spec(self, other: gf16) -> gf16 {
        gf16(self.0 ^ other.0)
    }
}

impl core::ops::Sub for gf16 {
    type Output = gf16;

    fn sub(self, other: gf16) -> (r: gf16) {
        self.naive_sub(other)
    }
}

impl vstd::std_specs::ops::SubSpecImpl for gf16 {
    open spec fn obeys_sub_spec() -> bool {
        true
    }

    open spec fn sub_req(self, other: gf16) -> bool {
        self.wf() && other.wf()
    }

    open spec fn sub_spec(self, other: gf16) -> gf16 {
        gf16(self.0 ^ other.0)
    }
}

impl core::ops::Mul for gf16 {
    type Output = gf16;

    fn mul(self, other: gf16) -> (r: gf16) {
        self.naive_mul(other)
    }
}

impl vstd::std_specs::ops::MulSpecImpl for gf16 {
    open spec fn obeys_mul_spec() -> bool {
        true
    }

    open spec fn mul_req(self, other: gf16) -> bool {
        self.wf() && other.wf()
    }

    open spec fn mul_spec(self, other: gf16) -> gf16 {
        gf16(mulmod(self.0 as nat, other.0 as nat, 0x13) as u8)
    }
}

impl core::ops::Div for gf16 {
    type Output = gf16;

    fn div(self, other: gf16) -> (r: gf16) {
        self.naive_div(other)
    }
}

impl vstd::std_specs::ops::DivSpecImpl for gf16 {
    open spec fn obeys_div_spec() -> bool {
        true
    }

    open spec fn div_req(self, other: gf16) -> bool {
        self.wf() && other.wf() && other.0 != 0
    }

    open spec fn div_spec(self, other: gf16) -> gf16 {
        gf16(mulmod(self.0 as nat, powmod(other.0 as nat, (exp2(4) - 2) as nat, 0x13), 0x13) as u8)
    }
}

/// Addition in `gf16` is commutative and associative, has zero as its
/// identity, and subtraction undoes it: `a + b == b + a`,
/// `a + (b + c) == (a + b) + c`, `a + 0 == a` and `(a + b) - b == a`.
pub proof fn lemma_gf16_add(a: gf16, b: gf16, c: gf16)
    ensures
        pxor(a.0 as nat, b.0 as nat) == pxor(b.0 as nat, a.0 as nat),
        pxor(a.0 as nat, pxor(b.0 as nat, c.0 as nat)) == pxor(pxor(a.0 as nat, b.0 as nat), c.0 as nat),
        pxor(a.0 as nat, 0) == a.0,
        pxor(pxor(a.0 as nat, b.0 as nat), b.0 as nat) == a.0,
{
    lemma_add_laws(a.0 as nat, b.0 as nat, c.0 as nat);
}

/// Multiplication in `gf16` is commutative and associative, has one as its
/// identity and distributes over addition: `a * b == b * a`,
/// `a * (b * c) == (a * b) * c`, `a * 1 == a` and `a * (b + c) == a * b + a * c`.
pub proof fn lemma_gf16_mul(a: gf16, b: gf16, c: gf16)
    requires
        a.wf(),
    ensures
        mulmod(a.0 as nat, b.0 as nat, 0x13) == mulmod(b.0 as nat, a.0 as nat, 0x13),
        mulmod(a.0 as nat, mulmod(b.0 as nat, c.0 as nat, 0x13), 0x13)
            == mulmod(mulmod(a.0 as nat, b.0 as nat, 0x13), c.0 as nat, 0x13),
        mulmod(a.0 as nat, 1, 0x13) == a.0,
        mulmod(a.0 as nat, pxor(b.0 as nat, c.0 as nat), 0x13)
            == pxor(mulmod(a.0 as nat, b.0 as nat, 0x13), mulmod(a.0 as nat, c.0 as nat, 0x13)),
{
    gf16_poly_facts();
    lemma_mul_laws(a.0 as nat, b.0 as nat, c.0 as nat, 0x13, 4);
}

/// Squaring in `gf16` is additive: `(a + b)^2 == a^2 + b^2`.
pub proof fn lemma_gf16_square_sum(a: gf16, b: gf16)
    ensures
        mulmod(pxor(a.0 as nat, b.0 as nat), pxor(a.0 as nat, b.0 as nat), 0x13)
            == pxor(mulmod(a.0 as nat, a.0 as nat, 0x13), mulmod(b.0 as nat, b.0 as nat, 0x13)),
{
    gf16_poly_facts();
    crate::field::lemma_square_sum(a.0 as nat, b.0 as nat, 0x13);
}

/// Division in `gf16` undoes multiplication and the inverse is one: for every
/// non-zero `b`, `(a * b) / b == a` and `b * b.recip() == 1`.
pub proof fn lemma_gf16_div(a: gf16, b: gf16)
    requires
        a.wf(),
        b.wf(),
        b.0 != 0,
    ensures
        mulmod(mulmod(a.0 as nat, b.0 as nat, 0x13), powmod(b.0 as nat, (exp2(4) - 2) as nat, 0x13), 0x13) == a.0,
        mulmod(b.0 as nat, powmod(b.0 as nat, (exp2(4) - 2) as nat, 0x13), 0x13) == 1,
{
    gf16_poly_facts();
    crate::groups::lemma_gf16_order(b.0 as nat);
    lemma_div_laws(a.0 as nat, b.0 as nat, 0x13, 4);
}

/// The field `GF(2^8)` defined by the polynomial `0x11d`, with generator `0x2`.
#[derive(Clone, Copy, Debug, PartialEq, Eq, Structural)]
pub struct gf256(pub u8);

/// `gf256` has `8`-digit elements and the defining polynomial has `9` digits.
proof fn gf256_poly_facts()
    ensures
        bitlen(0x11d) == 9,
        exp2(8) == 0x100,
{
    reveal_with_fuel(bitlen, 11);
    reveal_with_fuel(exp2, 11);
}

impl gf256 {
    /// The irreducible polynomial that defines the field.
    pub const POLYNOMIAL: u128 = 0x11d;
    /// The number of non-zero elements.
    pub const NONZEROS: u8 = 0xff;

    /// The element's digits are within the field's width.
    pub open spec fn wf(self) -> bool {
        (self.0 as nat) < exp2(8)
    }

    /// A generator of the multiplicative group of the field.
    pub fn generator() -> (r: gf256)
        ensures
            r.0 == 0x2,
            r.wf(),
    {
        proof {
            gf256_poly_facts();
        }
        gf256(0x2)
    }

    pub fn new(x: u8) -> (r: gf256)
        ensures
            r.0 == x,
            r.wf(),
    {
        proof {
            gf256_poly_facts();
        }
        gf256(x)
    }

    pub fn get(self) -> (r: u8)
        ensures
            r == self.0,
    {
        self.0
    }

    /// Field addition, the exclusive or of the digits.
    pub fn naive_add(self, other: gf256) -> (r: gf256)
        requires
            self.wf(),
            other.wf(),
        ensures
            r.0 == self.0 ^ other.0,
            r.0 as nat == pxor(self.0 as nat, other.0 as nat),
            r.wf(),
    {
        proof {
            lemma_xor(self.0 as u128, other.0 as u128);
            let (a, b) = (self.0, other.0);
            assert((a ^ b) as u128 == (a as u128) ^ (b as u128)) by (bit_vector);
            crate::poly::lemma_pxor_bound(a as nat, b as nat, 8);
        }
        gf256(self.0 ^ other.0)
    }

    /// Field subtraction, which is the same as addition.
    pub fn naive_sub(self, other: gf256) -> (r: gf256)
        requires
            self.wf(),
            other.wf(),
        ensures
            r.0 == self.0 ^ other.0,
            r.0 as nat == pxor(self.0 as nat, other.0 as nat),
            r.wf(),
    {
        self.naive_add(other)
    }

    /// Field multiplication: the product modulo the field's polynomial.
    pub fn naive_mul(self, other: gf256) -> (r: gf256)
        requires
            self.wf(),
            other.wf(),
        ensures
            r.0 as nat == mulmod(self.0 as nat, other.0 as nat, 0x11d),
            r.wf(),
    {
        proof {
            gf256_poly_facts();
        }
        let r = mulmod_u128(self.0 as u128, other.0 as u128, 0x11d, 8);
        gf256(r as u8)
    }

    /// `self` raised to the power `exp`.
    pub fn naive_pow(self, exp: u8) -> (r: gf256)
        requires
            self.wf(),
        ensures
            r.0 as nat == powmod(self.0 as nat, exp as nat, 0x11d),
            r.wf(),
    {
        proof {
            gf256_poly_facts();
        }
        let r = powmod_u128(self.0 as u128, exp as u128, 0x11d, 8);
        gf256(r as u8)
    }

    /// The multiplicative inverse, `self^(2^8 - 2)`; zero has none.
    pub fn naive_recip(self) -> (r: gf256)
        requires
            self.wf(),
            self.0 != 0,
        ensures
            r.0 as nat == powmod(self.0 as nat, (exp2(8) - 2) as nat, 0x11d),
            r.wf(),
    {
        proof {
            gf256_poly_facts();
        }
        self.naive_pow(0xfe)
    }

    /// Field division: multiplication by the inverse of the divisor.
    pub fn naive_div(self, other: gf256) -> (r: gf256)
        requires
            self.wf(),
            other.wf(),
            other.0 != 0,
        ensures
            r.0 as nat == mulmod(self.0 as nat, powmod(other.0 as nat, (exp2(8) - 2) as nat, 0x11d), 0x11d),
            r.wf(),
    {
        self.naive_mul(other.naive_recip())
    }

    /// Field multiplication.
    pub fn mul(self, other: gf256) -> (r: gf256)
        requires
            self.wf(),
            other.wf(),
        ensures
            r.0 as nat == mulmod(self.0 as nat, other.0 as nat, 0x11d),
            r.wf(),
    {
        self.naive_mul(other)
    }

    /// `self` raised to the power `exp`.
    pub fn pow(self, exp: u8) -> (r: gf256)
        requires
            self.wf(),
        ensures
            r.0 as nat == powmod(self.0 as nat, exp as nat, 0x11d),
            r.wf(),
    {
        self.naive_pow(exp)
    }

    /// The multiplicative inverse; zero has none.
    pub fn recip(self) -> (r: gf256)
        requires
            self.wf(),
            self.0 != 0,
        ensures
            r.0 as nat == powmod(self.0 as nat, (exp2(8) - 2) as nat, 0x11d),
            r.wf(),
    {
        self.naive_recip()
    }

    /// The inverse, or `None` for zero.
    pub fn checked_recip(self) -> (r: Option<gf256>)
        requires
            self.wf(),
        ensures
            r is Some <==> self.0 != 0,
            r matches Some(x) ==> x.0 as nat == powmod(self.0 as nat, (exp2(8) - 2) as nat, 0x11d),
    {
        if self.0 == 0 {
            None
        } else {
            Some(self.naive_recip())
        }
    }

    /// The quotient, or `None` when dividing by zero.
    pub fn checked_div(self, other: gf256) -> (r: Option<gf256>)
        requires
            self.wf(),
            other.wf(),
        ensures
            r is Some <==> other.0 != 0,
            r matches Some(x) ==> x.0 as nat
                == mulmod(self.0 as nat, powmod(other.0 as nat, (exp2(8) - 2) as nat, 0x11d), 0x11d),
    {
        if other.0 == 0 {
            None
        } else {
            Some(self.naive_div(other))
        }
    }
}

impl core::ops::Add for gf256 {
    type Output = gf256;

    fn add(self, other: gf256) -> (r: gf256) {
        self.naive_add(other)
    }
}

impl vstd::std_specs::ops::AddSpecImpl for gf256 {
    open spec fn obeys_add_spec() -> bool {
        true
    }

    open spec fn add_req(self, other: gf256) -> bool {
        self.wf() && other.wf()
    }

    open spec fn add_spec(self, other: gf256) -> gf256 {
        gf256(self.0 ^ other.0)
    }
}

impl core::ops::Sub for gf256 {
    type Output = gf256;

    fn sub(self, other: gf256) -> (r: gf256) {
        self.naive_sub(other)
    }
}

impl vstd::std_specs::ops::SubSpecImpl for gf256 {
    open spec fn obeys_sub_spec() -> bool {
        true
    }

    open spec fn sub_req(self, other: gf256) -> bool {
        self.wf() && other.wf()
    }

    open spec fn sub_spec(self, other: gf256) -> gf256 {
        gf256(self.0 ^ other.0)
    }
}

impl core::ops::Mul for gf256 {
    type Output = gf256;

    fn mul(self, other: gf256) -> (r: gf256) {
        self.naive_mul(other)
    }
}

impl vstd::std_specs::ops::MulSpecImpl for gf256 {
    open spec fn obeys_mul_spec() -> bool {
        true
    }

    open spec fn mul_req(self, other: gf256) -> bool {
        self.wf() && other.wf()
    }

    open spec fn mul_spec(self, other: gf256) -> gf256 {
        gf256(mulmod(self.0 as nat, other.0 as nat, 0x11d) as u8)
    }
}

impl core::ops::Div for gf256 {
    type Output = gf256;

    fn div(self, other: gf256) -> (r: gf256) {
        self.naive_div(other)
    }
}

impl vstd::std_specs::ops::DivSpecImpl for gf256 {
    open spec fn obeys_div_spec() -> bool {
        true
    }

    open spec fn div_req(self, other: gf256) -> bool {
        self.wf() && other.wf() && other.0 != 0
    }

    open spec fn div_spec(self, other: gf256) -> gf256 {
        gf256(mulmod(self.0 as nat, powmod(other.0 as nat, (exp2(8) - 2) as nat, 0x11d), 0x11d) as u8)
    }
}

/// Addition in `gf256` is commutative and associative, has zero as its
/// identity, and subtraction undoes it: `a + b == b + a`,
/// `a + (b + c) == (a + b) + c`, `a + 0 == a` and `(a + b) - b == a`.
pub proof fn lemma_gf256_add(a: gf256, b: gf256, c: gf256)
    ensures
        pxor(a.0 as nat, b.0 as nat) == pxor(b.0 as nat, a.0 as nat),
        pxor(a.0 as nat, pxor(b.0 as nat, c.0 as nat)) == pxor(pxor(a.0 as nat, b.0 as nat), c.0 as nat),
        pxor(a.0 as nat, 0) == a.0,
        pxor(pxor(a.0 as nat, b.0 as nat), b.0 as nat) == a.0,
{
    lemma_add_laws(a.0 as nat, b.0 as nat, c.0 as nat);
}

/// Multiplication in `gf256` is commutative and associative, has one as its
/// identity and distributes over addition: `a * b == b * a`,
/// `a * (b * c) == (a * b) * c`, `a * 1 == a` and `a * (b + c) == a * b + a * c`.
pub proof fn lemma_gf256_mul(a: gf256, b: gf256, c: gf256)
    requires
        a.wf(),
    ensures
        mulmod(a.0 as nat, b.0 as nat, 0x11d) == mulmod(b.0 as nat, a.0 as nat, 0x11d),
        mulmod(a.0 as nat, mulmod(b.0 as nat, c.0 as nat, 0x11d), 0x11d)
            == mulmod(mulmod(a.0 as nat, b.0 as nat, 0x11d), c.0 as nat, 0x11d),
        mulmod(a.0 as nat, 1, 0x11d) == a.0,
        mulmod(a.0 as nat, pxor(b.0 as nat, c.0 as nat), 0x11d)
            == pxor(mulmod(a.0 as nat, b.0 as nat, 0x11d), mulmod(a.0 as nat, c.0 as nat, 0x11d)),
{
    gf256_poly_facts();
    lemma_mul_laws(a.0 as nat, b.0 as nat, c.0 as nat, 0x11d, 8);
}

/// Squaring in `gf256` is additive: `(a + b)^2 == a^2 + b^2`.
pub proof fn lemma_gf256_square_sum(a: gf256, b: gf256)
    ensures
        mulmod(pxor(a.0 as nat, b.0 as nat), pxor(a.0 as nat, b.0 as nat), 0x11d)
            == pxor(mulmod(a.0 as nat, a.0 as nat, 0x11d), mulmod(b.0 as nat, b.0 as nat, 0x11d)),
{
    gf256_poly_facts();
    crate::field::lemma_square_sum(a.0 as nat, b.0 as nat, 0x11d);
}

/// Division in `gf256` undoes multiplication and the inverse is one: for every
/// non-zero `b`, `(a * b) / b == a` and `b * b.recip() == 1`.
pub proof fn lemma_gf256_div(a: gf256, b: gf256)
    requires
        a.wf(),
        b.wf(),
        b.0 != 0,
    ensures
        mulmod(mulmod(a.0 as nat, b.0 as nat, 0x11d), powmod(b.0 as nat, (exp2(8) - 2) as nat, 0x11d), 0x11d) == a.0,
        mulmod(b.0 as nat, powmod(b.0 as nat, (exp2(8) - 2) as nat, 0x11d), 0x11d) == 1,
{
    gf256_poly_facts();
    crate::groups::lemma_gf256_order(b.0 as nat);
    lemma_div_laws(a.0 as nat, b.0 as nat, 0x11d, 8);
}

/// The field `GF(2^8)` defined by the polynomial `0x11b`, with generator `0x3`.
#[derive(Clone, Copy, Debug, PartialEq, Eq, Structural)]
pub struct gf256_rijndael(pub u8);

/// `gf256_rijndael` has `8`-digit elements and the defining polynomial has `9` digits.
proof fn gf256_rijndael_poly_facts()
    ensures
        bitlen(0x11b) == 9,
        exp2(8) == 0x100,
{
    reveal_with_fuel(bitlen, 11);
    reveal_with_fuel(exp2, 11);
}

impl gf256_rijndael {
    /// The irreducible polynomial that defines the field.
    pub const POLYNOMIAL: u128 = 0x11b;
    /// The number of non-zero elements.
    pub const NONZEROS: u8 = 0xff;

    /// The element's digits are within the field's width.
    pub open spec fn wf(self) -> bool {
        (self.0 as nat) < exp2(8)
    }

    /// A generator of the multiplicative group of the field.
    pub fn generator() -> (r: gf256_rijndael)
        ensures
            r.0 == 0x3,
            r.wf(),
    {
        proof {
            gf256_rijndael_poly_facts();
        }
        gf256_rijndael(0x3)
    }

    pub fn new(x: u8) -> (r: gf256_rijndael)
        ensures
            r.0 == x,
            r.wf(),
    {
        proof {
            gf256_rijndael_poly_facts();
        }
        gf256_rijndael(x)
    }

    pub fn get(self) -> (r: u8)
        ensures
            r == self.0,
    {
        self.0
    }

    /// Field addition, the exclusive or of the digits.
    pub fn naive_add(self, other: gf256_rijndael) -> (r: gf256_rijndael)
        requires
            self.wf(),
            other.wf(),
        ensures
            r.0 == self.0 ^ other.0,
            r.0 as nat == pxor(self.0 as nat, other.0 as nat),
            r.wf(),
    {
        proof {
            lemma_xor(self.0 as u128, other.0 as u128);
            let (a, b) = (self.0, other.0);
            assert((a ^ b) as u128 == (a as u128) ^ (b as u128)) by (bit_vector);
            crate::poly::lemma_pxor_bound(a as nat, b as nat, 8);
        }
        gf256_rijndael(self.0 ^ other.0)
    }

    /// Field subtraction, which is the same as addition.
    pub fn naive_sub(self, other: gf256_rijndael) -> (r: gf256_rijndael)
        requires
            self.wf(),
            other.wf(),
        ensures
            r.0 == self.0 ^ other.0,
            r.0 as nat == pxor(self.0 as nat, other.0 as nat),
            r.wf(),
    {
        self.naive_add(other)
    }

    /// Field multiplication: the product modulo the field's polynomial.
    pub fn naive_mul(self, other: gf256_rijndael) -> (r: gf256_rijndael)
        requires
            self.wf(),
            other.wf(),
        ensures
            r.0 as nat == mulmod(self.0 as nat, other.0 as nat, 0x11b),
            r.wf(),
    {
        proof {
            gf256_rijndael_poly_facts();
        }
        let r = mulmod_u128(self.0 as u128, other.0 as u128, 0x11b, 8);
        gf256_rijndael(r as u8)
    }

    /// `self` raised to the power `exp`.
    pub fn naive_pow(self, exp: u8) -> (r: gf256_rijndael)
        requires
            self.wf(),
        ensures
            r.0 as nat == powmod(self.0 as nat, exp as nat, 0x11b),
            r.wf(),
    {
        proof {
            gf256_rijndael_poly_facts();
        }
        let r = powmod_u128(self.0 as u128, exp as u128, 0x11b, 8);
        gf256_rijndael(r as u8)
    }

    /// The multiplicative inverse, `self^(2^8 - 2)`; zero has none.
    pub fn naive_recip(self) -> (r: gf256_rijndael)
        requires
            self.wf(),
            self.0 != 0,
        ensures
            r.0 as nat == powmod(self.0 as nat, (exp2(8) - 2) as nat, 0x11b),
            r.wf(),
    {
        proof {
            gf256_rijndael_poly_facts();
        }
        self.naive_pow(0xfe)
    }

    /// Field division: multiplication by the inverse of the divisor.
    pub fn naive_div(self, other: gf256_rijndael) -> (r: gf256_rijndael)
        requires
            self.wf(),
            other.wf(),
            other.0 != 0,
        ensures
            r.0 as nat == mulmod(self.0 as nat, powmod(other.0 as nat, (exp2(8) - 2) as nat, 0x11b), 0x11b),
            r.wf(),
    {
        self.naive_mul(other.naive_recip())
    }

    /// Field multiplication.
    pub fn mul(self, other: gf256_rijndael) -> (r: gf256_rijndael)
        requires
            self.wf(),
            other.wf(),
        ensures
            r.0 as nat == mulmod(self.0 as nat, other.0 as nat, 0x11b),
            r.wf(),
    {
        self.naive_mul(other)
    }

    /// `self` raised to the power `exp`.
    pub fn pow(self, exp: u8) -> (r: gf256_rijndael)
        requires
            self.wf(),
        ensures
            r.0 as nat == powmod(self.0 as nat, exp as nat, 0x11b),
            r.wf(),
    {
        self.naive_pow(exp)
    }

    /// The multiplicative inverse; zero has none.
    pub fn recip(self) -> (r: gf256_rijndael)
        requires
            self.wf(),
            self.0 != 0,
        ensures
            r.0 as nat == powmod(self.0 as nat, (exp2(8) - 2) as nat, 0x11b),
            r.wf(),
    {
        self.naive_recip()
    }

    /// The inverse, or `None` for zero.
    pub fn checked_recip(self) -> (r: Option<gf256_rijndael>)
        requires
            self.wf(),
        ensures
            r is Some <==> self.0 != 0,
            r matches Some(x) ==> x.0 as nat == powmod(self.0 as nat, (exp2(8) - 2) as nat, 0x11b),
    {
        if self.0 == 0 {
            None
        } else {
            Some(self.naive_recip())
        }
    }

    /// The quotient, or `None` when dividing by zero.
    pub fn checked_div(self, other: gf256_rijndael) -> (r: Option<gf256_rijndael>)
        requires
            self.wf(),
            other.wf(),
        ensures
            r is Some <==> other.0 != 0,
            r matches Some(x) ==> x.0 as nat
                == mulmod(self.0 as nat, powmod(other.0 as nat, (exp2(8) - 2) as nat, 0x11b), 0x11b),
    {
        if other.0 == 0 {
            None
        } else {
            Some(self.naive_div(other))
        }
    }
}

impl core::ops::Add for gf256_rijndael {
    type Output = gf256_rijndael;

    fn add(self, other: gf256_rijndael) -> (r: gf256_rijndael) {
        self.naive_add(other)
    }
}

impl vstd::std_specs::ops::AddSpecImpl for gf256_rijndael {
    open spec fn obeys_add_spec() -> bool {
        true
    }

    open spec fn add_req(self, other: gf256_rijndael) -> bool {
        self.wf() && other.wf()
    }

    open spec fn add_spec(self, other: gf256_rijndael) -> gf256_rijndael {
        gf256_rijndael(self.0 ^ other.0)
    }
}

impl core::ops::Sub for gf256_rijndael {
    type Output = gf256_rijndael;

    fn sub(self, other: gf256_rijndael) -> (r: gf256_rijndael) {
        self.naive_sub(other)
    }
}

impl vstd::std_specs::ops::SubSpecImpl for gf256_rijndael {
    open spec fn obeys_sub_spec() -> bool {
        true
    }

    open spec fn sub_req(self, other: gf256_rijndael) -> bool {
        self.wf() && other.wf()
    }

    open spec fn sub_spec(self, other: gf256_rijndael) -> gf256_rijndael {
        gf256_rijndael(self.0 ^ other.0)
    }
}

impl core::ops::Mul for gf256_rijndael {
    type Output = gf256_rijndael;

    fn mul(self, other: gf256_rijndael) -> (r: gf256_rijndael) {
        self.naive_mul(other)
    }
}

impl vstd::std_specs::ops::MulSpecImpl for gf256_rijndael {
    open spec fn obeys_mul_spec() -> bool {
        true
    }

    open spec fn mul_req(self, other: gf256_rijndael) -> bool {
        self.wf() && other.wf()
    }

    open spec fn mul_spec(self, other: gf256_rijndael) -> gf256_rijndael {
        gf256_rijndael(mulmod(self.0 as nat, other.0 as nat, 0x11b) as u8)
    }
}

impl core::ops::Div for gf256_rijndael {
    type Output = gf256_rijndael;

    fn div(self, other: gf256_rijndael) -> (r: gf256_rijndael) {
        self.naive_div(other)
    }
}

impl vstd::std_specs::ops::DivSpecImpl for gf256_rijndael {
    open spec fn obeys_div_spec() -> bool {
        true
    }

    open spec fn div_req(self, other: gf256_rijndael) -> bool {
        self.wf() && other.wf() && other.0 != 0
    }

    open spec fn div_spec(self, other: gf256_rijndael) -> gf256_rijndael {
        gf256_rijndael(mulmod(self.0 as nat, powmod(other.0 as nat, (exp2(8) - 2) as nat, 0x11b), 0x11b) as u8)
    }
}

/// Addition in `gf256_rijndael` is commutative and associative, has zero as its
/// identity, and subtraction undoes it: `a + b == b + a`,
/// `a + (b + c) == (a + b) + c`, `a + 0 == a` and `(a + b) - b == a`.
pub proof fn lemma_gf256_rijndael_add(a: gf256_rijndael, b: gf256_rijndael, c: gf256_rijndael)
    ensures
        pxor(a.0 as nat, b.0 as nat) == pxor(b.0 as nat, a.0 as nat),
        pxor(a.0 as nat, pxor(b.0 as nat, c.0 as nat)) == pxor(pxor(a.0 as nat, b.0 as nat), c.0 as nat),
        pxor(a.0 as nat, 0) == a.0,
        pxor(pxor(a.0 as nat, b.0 as nat), b.0 as nat) == a.0,
{
    lemma_add_laws(a.0 as nat, b.0 as nat, c.0 as nat);
}

/// Multiplication in `gf256_rijndael` is commutative and associative, has one as its
/// identity and distributes over addition: `a * b == b * a`,
/// `a * (b * c) == (a * b) * c`, `a * 1 == a` and `a * (b + c) == a * b + a * c`.
pub proof fn lemma_gf256_rijndael_mul(a: gf256_rijndael, b: gf256_rijndael, c: gf256_rijndael)
    requires
        a.wf(),
    ensures
        mulmod(a.0 as nat, b.0 as nat, 0x11b) == mulmod(b.0 as nat, a.0 as nat, 0x11b),
        mulmod(a.0 as nat, mulmod(b.0 as nat, c.0 as nat, 0x11b), 0x11b)
            == mulmod(mulmod(a.0 as nat, b.0 as nat, 0x11b), c.0 as nat, 0x11b),
        mulmod(a.0 as nat, 1, 0x11b) == a.0,
        mulmod(a.0 as nat, pxor(b.0 as nat, c.0 as nat), 0x11b)
            == pxor(mulmod(a.0 as nat, b.0 as nat, 0x11b), mulmod(a.0 as nat, c.0 as nat, 0x11b)),
{
    gf256_rijndael_poly_facts();
    lemma_mul_laws(a.0 as nat, b.0 as nat, c.0 as nat, 0x11b, 8);
}

/// Squaring in `gf256_rijndael` is additive: `(a + b)^2 == a^2 + b^2`.
pub proof fn lemma_gf256_rijndael_square_sum(a: gf256_rijndael, b: gf256_rijndael)
    ensures
        mulmod(pxor(a.0 as nat, b.0 as nat), pxor(a.0 as nat, b.0 as nat), 0x11b)
            == pxor(mulmod(a.0 as nat, a.0 as nat, 0x11b), mulmod(b.0 as nat, b.0 as nat, 0x11b)),
{
    gf256_rijndael_poly_facts();
    crate::field::lemma_square_sum(a.0 as nat, b.0 as nat, 0x11b);
}

/// Division in `gf256_rijndael` undoes multiplication and the inverse is one: for every
/// non-zero `b`, `(a * b) / b == a` and `b * b.recip() == 1`.
pub proof fn lemma_gf256_rijndael_div(a: gf256_rijndael, b: gf256_rijndael)
    requires
        a.wf(),
        b.wf(),
        b.0 != 0,
    ensures
        mulmod(mulmod(a.0 as nat, b.0 as nat, 0x11b), powmod(b.0 as nat, (exp2(8) - 2) as nat, 0x11b), 0x11b) == a.0,
        mulmod(b.0 as nat, powmod(b.0 as nat, (exp2(8) - 2) as nat, 0x11b), 0x11b) == 1,
{
    gf256_rijndael_poly_facts();
    crate::groups::lemma_gf256_rijndael_order(b.0 as nat);
    lemma_div_laws(a.0 as nat, b.0 as nat, 0x11b, 8);
}

/// The field `GF(2^12)` defined by the polynomial `0x1053`, with generator `0x2`.
#[derive(Clone, Copy, Debug, PartialEq, Eq, Structural)]
pub struct gf4096(pub u16);

/// `gf4096` has `12`-digit elements and the defining polynomial has `13` digits.
proof fn gf4096_poly_facts()
    ensures
        bitlen(0x1053) == 13,
        exp2(12) == 0x1000,
{
    reveal_with_fuel(bitlen, 15);
    reveal_with_fuel(exp2, 15);
}

impl gf4096 {
    /// The irreducible polynomial that defines the field.
    pub const POLYNOMIAL: u128 = 0x1053;
    /// The number of non-zero elements.
    pub const NONZEROS: u16 = 0xfff;

    /// The element's digits are within the field's width.
    pub open spec fn wf(self) -> bool {
        (self.0 as nat) < exp2(12)
    }

    /// A generator of the multiplicative group of the field.
    pub fn generator() -> (r: gf4096)
        ensures
            r.0 == 0x2,
            r.wf(),
    {
        proof {
            gf4096_poly_facts();
        }
        gf4096(0x2)
    }

    pub fn new(x: u16) -> (r: gf4096)
        requires
            (x as nat) < exp2(12),
        ensures
            r.0 == x,
            r.wf(),
    {
        proof {
            gf4096_poly_facts();
        }
        gf4096(x)
    }

    pub fn get(self) -> (r: u16)
        ensures
            r == self.0,
    {
        self.0
    }

    /// Field addition, the exclusive or of the digits.
    pub fn naive_add(self, other: gf4096) -> (r: gf4096)
        requires
            self.wf(),
            other.wf(),
        ensures
            r.0 == self.0 ^ other.0,
            r.0 as nat == pxor(self.0 as nat, other.0 as nat),
            r.wf(),
    {
        proof {
            lemma_xor(self.0 as u128, other.0 as u128);
            let (a, b) = (self.0, other.0);
            assert((a ^ b) as u128 == (a as u128) ^ (b as u128)) by (bit_vector);
            crate::poly::lemma_pxor_bound(a as nat, b as nat, 12);
        }
        gf4096(self.0 ^ other.0)
    }

    /// Field subtraction, which is the same as addition.
    pub fn naive_sub(self, other: gf4096) -> (r: gf4096)
        requires
            self.wf(),
            other.wf(),
        ensures
            r.0 == self.0 ^ other.0,
            r.0 as nat == pxor(self.0 as nat, other.0 as nat),
            r.wf(),
    {
        self.naive_add(other)
    }

    /// Field multiplication: the product modulo the field's polynomial.
    pub fn naive_mul(self, other: gf4096) -> (r: gf4096)
        requires
            self.wf(),
            other.wf(),
        ensures
            r.0 as nat == mulmod(self.0 as nat, other.0 as nat, 0x1053),
            r.wf(),
    {
        proof {
            gf4096_poly_facts();
        }
        let r = mulmod_u128(self.0 as u128, other.0 as u128, 0x1053, 12);
        gf4096(r as u16)
    }

    /// `self` raised to the power `exp`.
    pub fn naive_pow(self, exp: u16) -> (r: gf4096)
        requires
            self.wf(),
        ensures
            r.0 as nat == powmod(self.0 as nat, exp as nat, 0x1053),
            r.wf(),
    {
        proof {
            gf4096_poly_facts();
        }
        let r = powmod_u128(self.0 as u128, exp as u128, 0x1053, 12);
        gf4096(r as u16)
    }

    /// The multiplicative inverse, `self^(2^12 - 2)`; zero has none.
    pub fn naive_recip(self) -> (r: gf4096)
        requires
            self.wf(),
            self.0 != 0,
        ensures
            r.0 as nat == powmod(self.0 as nat, (exp2(12) - 2) as nat, 0x1053),
            r.wf(),
    {
        proof {
            gf4096_poly_facts();
        }
        self.naive_pow(0xffe)
    }

    /// Field division: multiplication by the inverse of the divisor.
    pub fn naive_div(self, other: gf4096) -> (r: gf4096)
        requires
            self.wf(),
            other.wf(),
            other.0 != 0,
        ensures
            r.0 as nat == mulmod(self.0 as nat, powmod(other.0 as nat, (exp2(12) - 2) as nat, 0x1053), 0x1053),
            r.wf(),
    {
        self.naive_mul(other.naive_recip())
    }

    /// Field multiplication.
    pub fn mul(self, other: gf4096) -> (r: gf4096)
        requires
            self.wf(),
            other.wf(),
        ensures
            r.0 as nat == mulmod(self.0 as nat, other.0 as nat, 0x1053),
            r.wf(),
    {
        self.naive_mul(other)
    }

    /// `self` raised to the power `exp`.
    pub fn pow(self, exp: u16) -> (r: gf4096)
        requires
            self.wf(),
        ensures
            r.0 as nat == powmod(self.0 as nat, exp as nat, 0x1053),
            r.wf(),
    {
        self.naive_pow(exp)
    }

    /// The multiplicative inverse; zero has none.
    pub fn recip(self) -> (r: gf4096)
        requires
            self.wf(),
            self.0 != 0,
        ensures
            r.0 as nat == powmod(self.0 as nat, (exp2(12) - 2) as nat, 0x1053),
            r.wf(),
    {
        self.naive_recip()
    }

    /// The inverse, or `None` for zero.
    pub fn checked_recip(self) -> (r: Option<gf4096>)
        requires
            self.wf(),
        ensures
            r is Some <==> self.0 != 0,
            r matches Some(x) ==> x.0 as nat == powmod(self.0 as nat, (exp2(12) - 2) as nat, 0x1053),
    {
        if self.0 == 0 {
            None
        } else {
            Some(self.naive_recip())
        }
    }

    /// The quotient, or `None` when dividing by zero.
    pub fn checked_div(self, other: gf4096) -> (r: Option<gf4096>)
        requires
            self.wf(),
            other.wf(),
        ensures
            r is Some <==> other.0 != 0,
            r matches Some(x) ==> x.0 as nat
                == mulmod(self.0 as nat, powmod(other.0 as nat, (exp2(12) - 2) as nat, 0x1053), 0x1053),
    {
        if other.0 == 0 {
            None
        } else {
            Some(self.naive_div(other))
        }
    }
}

impl core::ops::Add for gf4096 {
    type Output = gf4096;

    fn add(self, other: gf4096) -> (r: gf4096) {
        self.naive_add(other)
    }
}

impl vstd::std_specs::ops::AddSpecImpl for gf4096 {
    open spec fn obeys_add_spec() -> bool {
        true
    }

    open spec fn add_req(self, other: gf4096) -> bool {
        self.wf() && other.wf()
    }

    open spec fn add_spec(self, other: gf4096) -> gf4096 {
        gf4096(self.0 ^ other.0)
    }
}

impl core::ops::Sub for gf4096 {
    type Output = gf4096;

    fn sub(self, other: gf4096) -> (r: gf4096) {
        self.naive_sub(other)
    }
}

impl vstd::std_specs::ops::SubSpecImpl for gf4096 {
    open spec fn obeys_sub_spec() -> bool {
        true
    }

    open spec fn sub_req(self, other: gf4096) -> bool {
        self.wf() && other.wf()
    }

    open spec fn sub_spec(self, other: gf4096) -> gf4096 {
        gf4096(self.0 ^ other.0)
    }
}

impl core::ops::Mul for gf4096 {
    type Output = gf4096;

    fn mul(self, other: gf4096) -> (r: gf4096) {
        self.naive_mul(other)
    }
}

impl vstd::std_specs::ops::MulSpecImpl for gf4096 {
    open spec fn obeys_mul_spec() -> bool {
        true
    }

    open spec fn mul_req(self, other: gf4096) -> bool {
        self.wf() && other.wf()
    }

    open spec fn mul_spec(self, other: gf4096) -> gf4096 {
        gf4096(mulmod(self.0 as nat, other.0 as nat, 0x1053) as u16)
    }
}

impl core::ops::Div for gf4096 {
    type Output = gf4096;

    fn div(self, other: gf4096) -> (r: gf4096) {
        self.naive_div(other)
    }
}

impl vstd::std_specs::ops::DivSpecImpl for gf4096 {
    open spec fn obeys_div_spec() -> bool {
        true
    }

    open spec fn div_req(self, other: gf4096) -> bool {
        self.wf() && other.wf() && other.0 != 0
    }

    open spec fn div_spec(self, other: gf4096) -> gf4096 {
        gf4096(mulmod(self.0 as nat, powmod(other.0 as nat, (exp2(12) - 2) as nat, 0x1053), 0x1053) as u16)
    }
}

/// Addition in `gf4096` is commutative and associative, has zero as its
/// identity, and subtraction undoes it: `a + b == b + a`,
/// `a + (b + c) == (a + b) + c`, `a + 0 == a` and `(a + b) - b == a`.
pub proof fn lemma_gf4096_add(a: gf4096, b: gf4096, c: gf4096)
    ensures
        pxor(a.0 as nat, b.0 as nat) == pxor(b.0 as nat, a.0 as nat),
        pxor(a.0 as nat, pxor(b.0 as nat, c.0 as nat)) == pxor(pxor(a.0 as nat, b.0 as nat), c.0 as nat),
        pxor(a.0 as nat, 0) == a.0,
        pxor(pxor(a.0 as nat, b.0 as nat), b.0 as nat) == a.0,
{
    lemma_add_laws(a.0 as nat, b.0 as nat, c.0 as nat);
}

/// Multiplication in `gf4096` is commutative and associative, has one as its
/// identity and distributes over addition: `a * b == b * a`,
/// `a * (b * c) == (a * b) * c`, `a * 1 == a` and `a * (b + c) == a * b + a * c`.
pub proof fn lemma_gf4096_mul(a: gf4096, b: gf4096, c: gf4096)
    requires
        a.wf(),
    ensures
        mulmod(a.0 as nat, b.0 as nat, 0x1053) == mulmod(b.0 as nat, a.0 as nat, 0x1053),
        mulmod(a.0 as nat, mulmod(b.0 as nat, c.0 as nat, 0x1053), 0x1053)
            == mulmod(mulmod(a.0 as nat, b.0 as nat, 0x1053), c.0 as nat, 0x1053),
        mulmod(a.0 as nat, 1, 0x1053) == a.0,
        mulmod(a.0 as nat, pxor(b.0 as nat, c.0 as nat), 0x1053)
            == pxor(mulmod(a.0 as nat, b.0 as nat, 0x1053), mulmod(a.0 as nat, c.0 as nat, 0x1053)),
{
    gf4096_poly_facts();
    lemma_mul_laws(a.0 as nat, b.0 as nat, c.0 as nat, 0x1053, 12);
}

/// Squaring in `gf4096` is additive: `(a + b)^2 == a^2 + b^2`.
pub proof fn lemma_gf4096_square_sum(a: gf4096, b: gf4096)
    ensures
        mulmod(pxor(a.0 as nat, b.0 as nat), pxor(a.0 as nat, b.0 as nat), 0x1053)
            == pxor(mulmod(a.0 as nat, a.0 as nat, 0x1053), mulmod(b.0 as nat, b.0 as nat, 0x1053)),
{
    gf4096_poly_facts();
    crate::field::lemma_square_sum(a.0 as nat, b.0 as nat, 0x1053);
}

/// Division in `gf4096` undoes multiplication and the inverse is one: for every
/// non-zero `b`, `(a * b) / b == a` and `b * b.recip() == 1`.
pub proof fn lemma_gf4096_div(a: gf4096, b: gf4096)
    requires
        a.wf(),
        b.wf(),
        b.0 != 0,
    ensures
        mulmod(mulmod(a.0 as nat, b.0 as nat, 0x1053), powmod(b.0 as nat, (exp2(12) - 2) as nat, 0x1053), 0x1053) == a.0,
        mulmod(b.0 as nat, powmod(b.0 as nat, (exp2(12) - 2) as nat, 0x1053), 0x1053) == 1,
{
    gf4096_poly_facts();
    crate::order::lemma_gf4096_field();
    assert(powmod(b.0 as nat, (exp2(12) - 1) as nat, 0x1053) == 1);
    lemma_div_laws(a.0 as nat, b.0 as nat, 0x1053, 12);
}

/// The field `GF(2^16)` defined by the polynomial `0x1002d`, with generator `0x2`.
#[derive(Clone, Copy, Debug, PartialEq, Eq, Structural)]
pub struct gf2p16(pub u16);

/// `gf2p16` has `16`-digit elements and the defining polynomial has `17` digits.
proof fn gf2p16_poly_facts()
    ensures
        bitlen(0x1002d) == 17,
        exp2(16) == 0x10000,
{
    reveal_with_fuel(bitlen, 19);
    reveal_with_fuel(exp2, 19);
}

impl gf2p16 {
    /// The irreducible polynomial that defines the field.
    pub const POLYNOMIAL: u128 = 0x1002d;
    /// The number of non-zero elements.
    pub const NONZEROS: u16 = 0xffff;

    /// The element's digits are within the field's width.
    pub open spec fn wf(self) -> bool {
        (self.0 as nat) < exp2(16)
    }

    /// A generator of the multiplicative group of the field.
    pub fn generator() -> (r: gf2p16)
        ensures
            r.0 == 0x2,
            r.wf(),
    {
        proof {
            gf2p16_poly_facts();
        }
        gf2p16(0x2)
    }

    pub fn new(x: u16) -> (r: gf2p16)
        ensures
            r.0 == x,
            r.wf(),
    {
        proof {
            gf2p16_poly_facts();
        }
        gf2p16(x)
    }

    pub fn get(self) -> (r: u16)
        ensures
            r == self.0,
    {
        self.0
    }

    /// Field addition, the exclusive or of the digits.
    pub fn naive_add(self, other: gf2p16) -> (r: gf2p16)
        requires
            self.wf(),
            other.wf(),
        ensures
            r.0 == self.0 ^ other.0,
            r.0 as nat == pxor(self.0 as nat, other.0 as nat),
            r.wf(),
    {
        proof {
            lemma_xor(self.0 as u128, other.0 as u128);
            let (a, b) = (self.0, other.0);
            assert((a ^ b) as u128 == (a as u128) ^ (b as u128)) by (bit_vector);
            crate::poly::lemma_pxor_bound(a as nat, b as nat, 16);
        }
        gf2p16(self.0 ^ other.0)
    }

    /// Field subtraction, which is the same as addition.
    pub fn naive_sub(self, other: gf2p16) -> (r: gf2p16)
        requires
            self.wf(),
            other.wf(),
        ensures
            r.0 == self.0 ^ other.0,
            r.0 as nat == pxor(self.0 as nat, other.0 as nat),
            r.wf(),
    {
        self.naive_add(other)
    }

    /// Field multiplication: the product modulo the field's polynomial.
    pub fn naive_mul(self, other: gf2p16) -> (r: gf2p16)
        requires
            self.wf(),
            other.wf(),
        ensures
            r.0 as nat == mulmod(self.0 as nat, other.0 as nat, 0x1002d),
            r.wf(),
    {
        proof {
            gf2p16_poly_facts();
        }
        let r = mulmod_u128(self.0 as u128, other.0 as u128, 0x1002d, 16);
        gf2p16(r as u16)
    }

    /// `self` raised to the power `exp`.
    pub fn naive_pow(self, exp: u16) -> (r: gf2p16)
        requires
            self.wf(),
        ensures
            r.0 as nat == powmod(self.0 as nat, exp as nat, 0x1002d),
            r.wf(),
    {
        proof {
            gf2p16_poly_facts();
        }
        let r = powmod_u128(self.0 as u128, exp as u128, 0x1002d, 16);
        gf2p16(r as u16)
    }

    /// The multiplicative inverse, `self^(2^16 - 2)`; zero has none.
    pub fn naive_recip(self) -> (r: gf2p16)
        requires
            self.wf(),
            self.0 != 0,
        ensures
            r.0 as nat == powmod(self.0 as nat, (exp2(16) - 2) as nat, 0x1002d),
            r.wf(),
    {
        proof {
            gf2p16_poly_facts();
        }
        self.naive_pow(0xfffe)
    }

    /// Field division: multiplication by the inverse of the divisor.
    pub fn naive_div(self, other: gf2p16) -> (r: gf2p16)
        requires
            self.wf(),
            other.wf(),
            other.0 != 0,
        ensures
            r.0 as nat == mulmod(self.0 as nat, powmod(other.0 as nat, (exp2(16) - 2) as nat, 0x1002d), 0x1002d),
            r.wf(),
    {
        self.naive_mul(other.naive_recip())
    }

    /// Field multiplication.
    pub fn mul(self, other: gf2p16) -> (r: gf2p16)
        requires
            self.wf(),
            other.wf(),
        ensures
            r.0 as nat == mulmod(self.0 as nat, other.0 as nat, 0x1002d),
            r.wf(),
    {
        self.naive_mul(other)
    }

    /// `self` raised to the power `exp`.
    pub fn pow(self, exp: u16) -> (r: gf2p16)
        requires
            self.wf(),
        ensures
            r.0 as nat == powmod(self.0 as nat, exp as nat, 0x1002d),
            r.wf(),
    {
        self.naive_pow(exp)
    }

    /// The multiplicative inverse; zero has none.
    pub fn recip(self) -> (r: gf2p16)
        requires
            self.wf(),
            self.0 != 0,
        ensures
            r.0 as nat == powmod(self.0 as nat, (exp2(16) - 2) as nat, 0x1002d),
            r.wf(),
    {
        self.naive_recip()
    }

    /// The inverse, or `None` for zero.
    pub fn checked_recip(self) -> (r: Option<gf2p16>)
        requires
            self.wf(),
        ensures
            r is Some <==> self.0 != 0,
            r matches Some(x) ==> x.0 as nat == powmod(self.0 as nat, (exp2(16) - 2) as nat, 0x1002d),
    {
        if self.0 == 0 {
            None
        } else {
            Some(self.naive_recip())
        }
    }

    /// The quotient, or `None` when dividing by zero.
    pub fn checked_div(self, other: gf2p16) -> (r: Option<gf2p16>)
        requires
            self.wf(),
            other.wf(),
        ensures
            r is Some <==> other.0 != 0,
            r matches Some(x) ==> x.0 as nat
                == mulmod(self.0 as nat, powmod(other.0 as nat, (exp2(16) - 2) as nat, 0x1002d), 0x1002d),
    {
        if other.0 == 0 {
            None
        } else {
            Some(self.naive_div(other))
        }
    }
}

impl core::ops::Add for gf2p16 {
    type Output = gf2p16;

    fn add(self, other: gf2p16) -> (r: gf2p16) {
        self.naive_add(other)
    }
}

impl vstd::std_specs::ops::AddSpecImpl for gf2p16 {
    open spec fn obeys_add_spec() -> bool {
        true
    }

    open spec fn add_req(self, other: gf2p16) -> bool {
        self.wf() && other.wf()
    }

    open spec fn add_spec(self, other: gf2p16) -> gf2p16 {
        gf2p16(self.0 ^ other.0)
    }
}

impl core::ops::Sub for gf2p16 {
    type Output = gf2p16;

    fn sub(self, other: gf2p16) -> (r: gf2p16) {
        self.naive_sub(other)
    }
}

impl vstd::std_specs::ops::SubSpecImpl for gf2p16 {
    open spec fn obeys_sub_spec() -> bool {
        true
    }

    open spec fn sub_req(self, other: gf2p16) -> bool {
        self.wf() && other.wf()
    }

    open spec fn sub_spec(self, other: gf2p16) -> gf2p16 {
        gf2p16(self.0 ^ other.0)
    }
}

impl core::ops::Mul for gf2p16 {
    type Output = gf2p16;

    fn mul(self, other: gf2p16) -> (r: gf2p16) {
        self.naive_mul(other)
    }
}

impl vstd::std_specs::ops::MulSpecImpl for gf2p16 {
    open spec fn obeys_mul_spec() -> bool {
        true
    }

    open spec fn mul_req(self, other: gf2p16) -> bool {
        self.wf() && other.wf()
    }

    open spec fn mul_spec(self, other: gf2p16) -> gf2p16 {
        gf2p16(mulmod(self.0 as nat, other.0 as nat, 0x1002d) as u16)
    }
}

impl core::ops::Div for gf2p16 {
    type Output = gf2p16;

    fn div(self, other: gf2p16) -> (r: gf2p16) {
        self.naive_div(other)
    }
}

impl vstd::std_specs::ops::DivSpecImpl for gf2p16 {
    open spec fn obeys_div_spec() -> bool {
        true
    }

    open spec fn div_req(self, other: gf2p16) -> bool {
        self.wf() && other.wf() && other.0 != 0
    }

    open spec fn div_spec(self, other: gf2p16) -> gf2p16 {
        gf2p16(mulmod(self.0 as nat, powmod(other.0 as nat, (exp2(16) - 2) as nat, 0x1002d), 0x1002d) as u16)
    }
}

/// Addition in `gf2p16` is commutative and associative, has zero as its
/// identity, and subtraction undoes it: `a + b == b + a`,
/// `a + (b + c) == (a + b) + c`, `a + 0 == a` and `(a + b) - b == a`.
pub proof fn lemma_gf2p16_add(a: gf2p16, b: gf2p16, c: gf2p16)
    ensures
        pxor(a.0 as nat, b.0 as nat) == pxor(b.0 as nat, a.0 as nat),
        pxor(a.0 as nat, pxor(b.0 as nat, c.0 as nat)) == pxor(pxor(a.0 as nat, b.0 as nat), c.0 as nat),
        pxor(a.0 as nat, 0) == a.0,
        pxor(pxor(a.0 as nat, b.0 as nat), b.0 as nat) == a.0,
{
    lemma_add_laws(a.0 as nat, b.0 as nat, c.0 as nat);
}

/// Multiplication in `gf2p16` is commutative and associative, has one as its
/// identity and distributes over addition: `a * b == b * a`,
/// `a * (b * c) == (a * b) * c`, `a * 1 == a` and `a * (b + c) == a * b + a * c`.
pub proof fn lemma_gf2p16_mul(a: gf2p16, b: gf2p16, c: gf2p16)
    requires
        a.wf(),
    ensures
        mulmod(a.0 as nat, b.0 as nat, 0x1002d) == mulmod(b.0 as nat, a.0 as nat, 0x1002d),
        mulmod(a.0 as nat, mulmod(b.0 as nat, c.0 as nat, 0x1002d), 0x1002d)
            == mulmod(mulmod(a.0 as nat, b.0 as nat, 0x1002d), c.0 as nat, 0x1002d),
        mulmod(a.0 as nat, 1, 0x1002d) == a.0,
        mulmod(a.0 as nat, pxor(b.0 as nat, c.0 as nat), 0x1002d)
            == pxor(mulmod(a.0 as nat, b.0 as nat, 0x1002d), mulmod(a.0 as nat, c.0 as nat, 0x1002d)),
{
    gf2p16_poly_facts();
    lemma_mul_laws(a.0 as nat, b.0 as nat, c.0 as nat, 0x1002d, 16);
}

/// Squaring in `gf2p16` is additive: `(a + b)^2 == a^2 + b^2`.
pub proof fn lemma_gf2p16_square_sum(a: gf2p16, b: gf2p16)
    ensures
        mulmod(pxor(a.0 as nat, b.0 as nat), pxor(a.0 as nat, b.0 as nat), 0x1002d)
            == pxor(mulmod(a.0 as nat, a.0 as nat, 0x1002d), mulmod(b.0 as nat, b.0 as nat, 0x1002d)),
{
    gf2p16_poly_facts();
    crate::field::lemma_square_sum(a.0 as nat, b.0 as nat, 0x1002d);
}

/// Division in `gf2p16` undoes multiplication and the inverse is one: for every
/// non-zero `b`, `(a * b) / b == a` and `b * b.recip() == 1`.
pub proof fn lemma_gf2p16_div(a: gf2p16, b: gf2p16)
    requires
        a.wf(),
        b.wf(),
        b.0 != 0,
    ensures
        mulmod(mulmod(a.0 as nat, b.0 as nat, 0x1002d), powmod(b.0 as nat, (exp2(16) - 2) as nat, 0x1002d), 0x1002d) == a.0,
        mulmod(b.0 as nat, powmod(b.0 as nat, (exp2(16) - 2) as nat, 0x1002d), 0x1002d) == 1,
{
    gf2p16_poly_facts();
    crate::order::lemma_gf2p16_field();
    assert(powmod(b.0 as nat, (exp2(16) - 1) as nat, 0x1002d) == 1);
    lemma_div_laws(a.0 as nat, b.0 as nat, 0x1002d, 16);
}

/// The field `GF(2^23)` defined by the polynomial `0x800021`, with generator `0x2`.
#[derive(Clone, Copy, Debug, PartialEq, Eq, Structural)]
pub struct gf2p23(pub u32);

/// `gf2p23` has `23`-digit elements and the defining polynomial has `24` digits.
proof fn gf2p23_poly_facts()
    ensures
        bitlen(0x800021) == 24,
        exp2(23) == 0x800000,
{
    reveal_with_fuel(bitlen, 26);
    reveal_with_fuel(exp2, 26);
}

impl gf2p23 {
    /// The irreducible polynomial that defines the field.
    pub const POLYNOMIAL: u128 = 0x800021;
    /// The number of non-zero elements.
    pub const NONZEROS: u32 = 0x7fffff;

    /// The element's digits are within the field's width.
    pub open spec fn wf(self) -> bool {
        (self.0 as nat) < exp2(23)
    }

    /// A generator of the multiplicative group of the field.
    pub fn generator() -> (r: gf2p23)
        ensures
            r.0 == 0x2,
            r.wf(),
    {
        proof {
            gf2p23_poly_facts();
        }
        gf2p23(0x2)
    }

    pub fn new(x: u32) -> (r: gf2p23)
        requires
            (x as nat) < exp2(23),
        ensures
            r.0 == x,
            r.wf(),
    {
        proof {
            gf2p23_poly_facts();
        }
        gf2p23(x)
    }

    pub fn get(self) -> (r: u32)
        ensures
            r == self.0,
    {
        self.0
    }

    /// Field addition, the exclusive or of the digits.
    pub fn naive_add(self, other: gf2p23) -> (r: gf2p23)
        requires
            self.wf(),
            other.wf(),
        ensures
            r.0 == self.0 ^ other.0,
            r.0 as nat == pxor(self.0 as nat, other.0 as nat),
            r.wf(),
    {
        proof {
            lemma_xor(self.0 as u128, other.0 as u128);
            let (a, b) = (self.0, other.0);
            assert((a ^ b) as u128 == (a as u128) ^ (b as u128)) by (bit_vector);
            crate::poly::lemma_pxor_bound(a as nat, b as nat, 23);
        }
        gf2p23(self.0 ^ other.0)
    }

    /// Field subtraction, which is the same as addition.
    pub fn naive_sub(self, other: gf2p23) -> (r: gf2p23)
        requires
            self.wf(),
            other.wf(),
        ensures
            r.0 == self.0 ^ other.0,
            r.0 as nat == pxor(self.0 as nat, other.0 as nat),
            r.wf(),
    {
        self.naive_add(other)
    }

    /// Field multiplication: the product modulo the field's polynomial.
    pub fn naive_mul(self, other: gf2p23) -> (r: gf2p23)
        requires
            self.wf(),
            other.wf(),
        ensures
            r.0 as nat == mulmod(self.0 as nat, other.0 as nat, 0x800021),
            r.wf(),
    {
        proof {
            gf2p23_poly_facts();
        }
        let r = mulmod_u128(self.0 as u128, other.0 as u128, 0x800021, 23);
        gf2p23(r as u32)
    }

    /// `self` raised to the power `exp`.
    pub fn naive_pow(self, exp: u32) -> (r: gf2p23)
        requires
            self.wf(),
        ensures
            r.0 as nat == powmod(self.0 as nat, exp as nat, 0x800021),
            r.wf(),
    {
        proof {
            gf2p23_poly_facts();
        }
        let r = powmod_u128(self.0 as u128, exp as u128, 0x800021, 23);
        gf2p23(r as u32)
    }

    /// The multiplicative inverse, `self^(2^23 - 2)`; zero has none.
    pub fn naive_recip(self) -> (r: gf2p23)
        requires
            self.wf(),
            self.0 != 0,
        ensures
            r.0 as nat == powmod(self.0 as nat, (exp2(23) - 2) as nat, 0x800021),
            r.wf(),
    {
        proof {
            gf2p23_poly_facts();
        }
        self.naive_pow(0x7ffffe)
    }

    /// Field division: multiplication by the inverse of the divisor.
    pub fn naive_div(self, other: gf2p23) -> (r: gf2p23)
        requires
            self.wf(),
            other.wf(),
            other.0 != 0,
        ensures
            r.0 as nat == mulmod(self.0 as nat, powmod(other.0 as nat, (exp2(23) - 2) as nat, 0x800021), 0x800021),
            r.wf(),
    {
        self.naive_mul(other.naive_recip())
    }

    /// Field multiplication.
    pub fn mul(self, other: gf2p23) -> (r: gf2p23)
        requires
            self.wf(),
            other.wf(),
        ensures
            r.0 as nat == mulmod(self.0 as nat, other.0 as nat, 0x800021),
            r.wf(),
    {
        self.naive_mul(other)
    }

    /// `self` raised to the power `exp`.
    pub fn pow(self, exp: u32) -> (r: gf2p23)
        requires
            self.wf(),
        ensures
            r.0 as nat == powmod(self.0 as nat, exp as nat, 0x800021),
            r.wf(),
    {
        self.naive_pow(exp)
    }

    /// The multiplicative inverse; zero has none.
    pub fn recip(self) -> (r: gf2p23)
        requires
            self.wf(),
            self.0 != 0,
        ensures
            r.0 as nat == powmod(self.0 as nat, (exp2(23) - 2) as nat, 0x800021),
            r.wf(),
    {
        self.naive_recip()
    }

    /// The inverse, or `None` for zero.
    pub fn checked_recip(self) -> (r: Option<gf2p23>)
        requires
            self.wf(),
        ensures
            r is Some <==> self.0 != 0,
            r matches Some(x) ==> x.0 as nat == powmod(self.0 as nat, (exp2(23) - 2) as nat, 0x800021),
    {
        if self.0 == 0 {
            None
        } else {
            Some(self.naive_recip())
        }
    }

    /// The quotient, or `None` when dividing by zero.
    pub fn checked_div(self, other: gf2p23) -> (r: Option<gf2p23>)
        requires
            self.wf(),
            other.wf(),
        ensures
            r is Some <==> other.0 != 0,
            r matches Some(x) ==> x.0 as nat
                == mulmod(self.0 as nat, powmod(other.0 as nat, (exp2(23) - 2) as nat, 0x800021), 0x800021),
    {
        if other.0 == 0 {
            None
        } else {
            Some(self.naive_div(other))
        }
    }
}

impl core::ops::Add for gf2p23 {
    type Output = gf2p23;

    fn add(self, other: gf2p23) -> (r: gf2p23) {
        self.naive_add(other)
    }
}

impl vstd::std_specs::ops::AddSpecImpl for gf2p23 {
    open spec fn obeys_add_spec() -> bool {
        true
    }

    open spec fn add_req(self, other: gf2p23) -> bool {
        self.wf() && other.wf()
    }

    open spec fn add_spec(self, other: gf2p23) -> gf2p23 {
        gf2p23(self.0 ^ other.0)
    }
}

impl core::ops::Sub for gf2p23 {
    type Output = gf2p23;

    fn sub(self, other: gf2p23) -> (r: gf2p23) {
        self.naive_sub(other)
    }
}

impl vstd::std_specs::ops::SubSpecImpl for gf2p23 {
    open spec fn obeys_sub_spec() -> bool {
        true
    }

    open spec fn sub_req(self, other: gf2p23) -> bool {
        self.wf() && other.wf()
    }

    open spec fn sub_spec(self, other: gf2p23) -> gf2p23 {
        gf2p23(self.0 ^ other.0)
    }
}

impl core::ops::Mul for gf2p23 {
    type Output = gf2p23;

    fn mul(self, other: gf2p23) -> (r: gf2p23) {
        self.naive_mul(other)
    }
}

impl vstd::std_specs::ops::MulSpecImpl for gf2p23 {
    open spec fn obeys_mul_spec() -> bool {
        true
    }

    open spec fn mul_req(self, other: gf2p23) -> bool {
        self.wf() && other.wf()
    }

    open spec fn mul_spec(self, other: gf2p23) -> gf2p23 {
        gf2p23(mulmod(self.0 as nat, other.0 as nat, 0x800021) as u32)
    }
}

impl core::ops::Div for gf2p23 {
    type Output = gf2p23;

    fn div(self, other: gf2p23) -> (r: gf2p23) {
        self.naive_div(other)
    }
}

impl vstd::std_specs::ops::DivSpecImpl for gf2p23 {
    open spec fn obeys_div_spec() -> bool {
        true
    }

    open spec fn div_req(self, other: gf2p23) -> bool {
        self.wf() && other.wf() && other.0 != 0
    }

    open spec fn div_spec(self, other: gf2p23) -> gf2p23 {
        gf2p23(mulmod(self.0 as nat, powmod(other.0 as nat, (exp2(23) - 2) as nat, 0x800021), 0x800021) as u32)
    }
}

/// Addition in `gf2p23` is commutative and associative, has zero as its
/// identity, and subtraction undoes it: `a + b == b + a`,
/// `a + (b + c) == (a + b) + c`, `a + 0 == a` and `(a + b) - b == a`.
pub proof fn lemma_gf2p23_add(a: gf2p23, b: gf2p23, c: gf2p23)
    ensures
        pxor(a.0 as nat, b.0 as nat) == pxor(b.0 as nat, a.0 as nat),
        pxor(a.0 as nat, pxor(b.0 as nat, c.0 as nat)) == pxor(pxor(a.0 as nat, b.0 as nat), c.0 as nat),
        pxor(a.0 as nat, 0) == a.0,
        pxor(pxor(a.0 as nat, b.0 as nat), b.0 as nat) == a.0,
{
    lemma_add_laws(a.0 as nat, b.0 as nat, c.0 as nat);
}

/// Multiplication in `gf2p23` is commutative and associative, has one as its
/// identity and distributes over addition: `a * b == b * a`,
/// `a * (b * c) == (a * b) * c`, `a * 1 == a` and `a * (b + c) == a * b + a * c`.
pub proof fn lemma_gf2p23_mul(a: gf2p23, b: gf2p23, c: gf2p23)
    requires
        a.wf(),
    ensures
        mulmod(a.0 as nat, b.0 as nat, 0x800021) == mulmod(b.0 as nat, a.0 as nat, 0x800021),
        mulmod(a.0 as nat, mulmod(b.0 as nat, c.0 as nat, 0x800021), 0x800021)
            == mulmod(mulmod(a.0 as nat, b.0 as nat, 0x800021), c.0 as nat, 0x800021),
        mulmod(a.0 as nat, 1, 0x800021) == a.0,
        mulmod(a.0 as nat, pxor(b.0 as nat, c.0 as nat), 0x800021)
            == pxor(mulmod(a.0 as nat, b.0 as nat, 0x800021), mulmod(a.0 as nat, c.0 as nat, 0x800021)),
{
    gf2p23_poly_facts();
    lemma_mul_laws(a.0 as nat, b.0 as nat, c.0 as nat, 0x800021, 23);
}

/// Squaring in `gf2p23` is additive: `(a + b)^2 == a^2 + b^2`.
pub proof fn lemma_gf2p23_square_sum(a: gf2p23, b: gf2p23)
    ensures
        mulmod(pxor(a.0 as nat, b.0 as nat), pxor(a.0 as nat, b.0 as nat), 0x800021)
            == pxor(mulmod(a.0 as nat, a.0 as nat, 0x800021), mulmod(b.0 as nat, b.0 as nat, 0x800021)),
{
    gf2p23_poly_facts();
    crate::field::lemma_square_sum(a.0 as nat, b.0 as nat, 0x800021);
}

/// Division in `gf2p23` undoes multiplication and the inverse is one: for every
/// non-zero `b`, `(a * b) / b == a` and `b * b.recip() == 1`.
pub proof fn lemma_gf2p23_div(a: gf2p23, b: gf2p23)
    requires
        a.wf(),
        b.wf(),
        b.0 != 0,
    ensures
        mulmod(mulmod(a.0 as nat, b.0 as nat, 0x800021), powmod(b.0 as nat, (exp2(23) - 2) as nat, 0x800021), 0x800021) == a.0,
        mulmod(b.0 as nat, powmod(b.0 as nat, (exp2(23) - 2) as nat, 0x800021), 0x800021) == 1,
{
    gf2p23_poly_facts();
    crate::order::lemma_gf2p23_field();
    assert(powmod(b.0 as nat, (exp2(23) - 1) as nat, 0x800021) == 1);
    lemma_div_laws(a.0 as nat, b.0 as nat, 0x800021, 23);
}

/// The field `GF(2^32)` defined by the polynomial `0x1000000af`, with generator `0x2`.
#[derive(Clone, Copy, Debug, PartialEq, Eq, Structural)]
pub struct gf2p32(pub u32);

/// `gf2p32` has `32`-digit elements and the defining polynomial has `33` digits.
proof fn gf2p32_poly_facts()
    ensures
        bitlen(0x1000000af) == 33,
        exp2(32) == 0x100000000,
{
    reveal_with_fuel(bitlen, 35);
    reveal_with_fuel(exp2, 35);
}

impl gf2p32 {
    /// The irreducible polynomial that defines the field.
    pub const POLYNOMIAL: u128 = 0x1000000af;
    /// The number of non-zero elements.
    pub const NONZEROS: u32 = 0xffffffff;

    /// The element's digits are within the field's width.
    pub open spec fn wf(self) -> bool {
        (self.0 as nat) < exp2(32)
    }

    /// A generator of the multiplicative group of the field.
    pub fn generator() -> (r: gf2p32)
        ensures
            r.0 == 0x2,
            r.wf(),
    {
        proof {
            gf2p32_poly_facts();
        }
        gf2p32(0x2)
    }

    pub fn new(x: u32) -> (r: gf2p32)
        ensures
            r.0 == x,
            r.wf(),
    {
        proof {
            gf2p32_poly_facts();
        }
        gf2p32(x)
    }

    pub fn get(self) -> (r: u32)
        ensures
            r == self.0,
    {
        self.0
    }

    /// Field addition, the exclusive or of the digits.
    pub fn naive_add(self, other: gf2p32) -> (r: gf2p32)
        requires
            self.wf(),
            other.wf(),
        ensures
            r.0 == self.0 ^ other.0,
            r.0 as nat == pxor(self.0 as nat, other.0 as nat),
            r.wf(),
    {
        proof {
            lemma_xor(self.0 as u128, other.0 as u128);
            let (a, b) = (self.0, other.0);
            assert((a ^ b) as u128 == (a as u128) ^ (b as u128)) by (bit_vector);
            crate::poly::lemma_pxor_bound(a as nat, b as nat, 32);
        }
        gf2p32(self.0 ^ other.0)
    }

    /// Field subtraction, which is the same as addition.
    pub fn naive_sub(self, other: gf2p32) -> (r: gf2p32)
        requires
            self.wf(),
            other.wf(),
        ensures
            r.0 == self.0 ^ other.0,
            r.0 as nat == pxor(self.0 as nat, other.0 as nat),
            r.wf(),
    {
        self.naive_add(other)
    }

    /// Field multiplication: the product modulo the field's polynomial.
    pub fn naive_mul(self, other: gf2p32) -> (r: gf2p32)
        requires
            self.wf(),
            other.wf(),
        ensures
            r.0 as nat == mulmod(self.0 as nat, other.0 as nat, 0x1000000af),
            r.wf(),
    {
        proof {
            gf2p32_poly_facts();
        }
        let r = mulmod_u128(self.0 as u128, other.0 as u128, 0x1000000af, 32);
        gf2p32(r as u32)
    }

    /// `self` raised to the power `exp`.
    pub fn naive_pow(self, exp: u32) -> (r: gf2p32)
        requires
            self.wf(),
        ensures
            r.0 as nat == powmod(self.0 as nat, exp as nat, 0x1000000af),
            r.wf(),
    {
        proof {
            gf2p32_poly_facts();
        }
        let r = powmod_u128(self.0 as u128, exp as u128, 0x1000000af, 32);
        gf2p32(r as u32)
    }

    /// The multiplicative inverse, `self^(2^32 - 2)`; zero has none.
    pub fn naive_recip(self) -> (r: gf2p32)
        requires
            self.wf(),
            self.0 != 0,
        ensures
            r.0 as nat == powmod(self.0 as nat, (exp2(32) - 2) as nat, 0x1000000af),
            r.wf(),
    {
        proof {
            gf2p32_poly_facts();
        }
        self.naive_pow(0xfffffffe)
    }

    /// Field division: multiplication by the inverse of the divisor.
    pub fn naive_div(self, other: gf2p32) -> (r: gf2p32)
        requires
            self.wf(),
            other.wf(),
            other.0 != 0,
        ensures
            r.0 as nat == mulmod(self.0 as nat, powmod(other.0 as nat, (exp2(32) - 2) as nat, 0x1000000af), 0x1000000af),
            r.wf(),
    {
        self.naive_mul(other.naive_recip())
    }

    /// Field multiplication.
    pub fn mul(self, other: gf2p32) -> (r: gf2p32)
        requires
            self.wf(),
            other.wf(),
        ensures
            r.0 as nat == mulmod(self.0 as nat, other.0 as nat, 0x1000000af),
            r.wf(),
    {
        self.naive_mul(other)
    }

    /// `self` raised to the power `exp`.
    pub fn pow(self, exp: u32) -> (r: gf2p32)
        requires
            self.wf(),
        ensures
            r.0 as nat == powmod(self.0 as nat, exp as nat, 0x1000000af),
            r.wf(),
    {
        self.naive_pow(exp)
    }

    /// The multiplicative inverse; zero has none.
    pub fn recip(self) -> (r: gf2p32)
        requires
            self.wf(),
            self.0 != 0,
        ensures
            r.0 as nat == powmod(self.0 as nat, (exp2(32) - 2) as nat, 0x1000000af),
            r.wf(),
    {
        self.naive_recip()
    }

    /// The inverse, or `None` for zero.
    pub fn checked_recip(self) -> (r: Option<gf2p32>)
        requires
            self.wf(),
        ensures
            r is Some <==> self.0 != 0,
            r matches Some(x) ==> x.0 as nat == powmod(self.0 as nat, (exp2(32) - 2) as nat, 0x1000000af),
    {
        if self.0 == 0 {
            None
        } else {
            Some(self.naive_recip())
        }
    }

    /// The quotient, or `None` when dividing by zero.
    pub fn checked_div(self, other: gf2p32) -> (r: Option<gf2p32>)
        requires
            self.wf(),
            other.wf(),
        ensures
            r is Some <==> other.0 != 0,
            r matches Some(x) ==> x.0 as nat
                == mulmod(self.0 as nat, powmod(other.0 as nat, (exp2(32) - 2) as nat, 0x1000000af), 0x1000000af),
    {
        if other.0 == 0 {
            None
        } else {
            Some(self.naive_div(other))
        }
    }
}

impl core::ops::Add for gf2p32 {
    type Output = gf2p32;

    fn add(self, other: gf2p32) -> (r: gf2p32) {
        self.naive_add(other)
    }
}

impl vstd::std_specs::ops::AddSpecImpl for gf2p32 {
    open spec fn obeys_add_spec() -> bool {
        true
    }

    open spec fn add_req(self, other: gf2p32) -> bool {
        self.wf() && other.wf()
    }

    open spec fn add_spec(self, other: gf2p32) -> gf2p32 {
        gf2p32(self.0 ^ other.0)
    }
}

impl core::ops::Sub for gf2p32 {
    type Output = gf2p32;

    fn sub(self, other: gf2p32) -> (r: gf2p32) {
        self.naive_sub(other)
    }
}

impl vstd::std_specs::ops::SubSpecImpl for gf2p32 {
    open spec fn obeys_sub_spec() -> bool {
        true
    }

    open spec fn sub_req(self, other: gf2p32) -> bool {
        self.wf() && other.wf()
    }

    open spec fn sub_spec(self, other: gf2p32) -> gf2p32 {
        gf2p32(self.0 ^ other.0)
    }
}

impl core::ops::Mul for gf2p32 {
    type Output = gf2p32;

    fn mul(self, other: gf2p32) -> (r: gf2p32) {
        self.naive_mul(other)
    }
}

impl vstd::std_specs::ops::MulSpecImpl for gf2p32 {
    open spec fn obeys_mul_spec() -> bool {
        true
    }

    open spec fn mul_req(self, other: gf2p32) -> bool {
        self.wf() && other.wf()
    }

    open spec fn mul_spec(self, other: gf2p32) -> gf2p32 {
        gf2p32(mulmod(self.0 as nat, other.0 as nat, 0x1000000af) as u32)
    }
}

impl core::ops::Div for gf2p32 {
    type Output = gf2p32;

    fn div(self, other: gf2p32) -> (r: gf2p32) {
        self.naive_div(other)
    }
}

impl vstd::std_specs::ops::DivSpecImpl for gf2p32 {
    open spec fn obeys_div_spec() -> bool {
        true
    }

    open spec fn div_req(self, other: gf2p32) -> bool {
        self.wf() && other.wf() && other.0 != 0
    }

    open spec fn div_spec(self, other: gf2p32) -> gf2p32 {
        gf2p32(mulmod(self.0 as nat, powmod(other.0 as nat, (exp2(32) - 2) as nat, 0x1000000af), 0x1000000af) as u32)
    }
}

/// Addition in `gf2p32` is commutative and associative, has zero as its
/// identity, and subtraction undoes it: `a + b == b + a`,
/// `a + (b + c) == (a + b) + c`, `a + 0 == a` and `(a + b) - b == a`.
pub proof fn lemma_gf2p32_add(a: gf2p32, b: gf2p32, c: gf2p32)
    ensures
        pxor(a.0 as nat, b.0 as nat) == pxor(b.0 as nat, a.0 as nat),
        pxor(a.0 as nat, pxor(b.0 as nat, c.0 as nat)) == pxor(pxor(a.0 as nat, b.0 as nat), c.0 as nat),
        pxor(a.0 as nat, 0) == a.0,
        pxor(pxor(a.0 as nat, b.0 as nat), b.0 as nat) == a.0,
{
    lemma_add_laws(a.0 as nat, b.0 as nat, c.0 as nat);
}

/// Multiplication in `gf2p32` is commutative and associative, has one as its
/// identity and distributes over addition: `a * b == b * a`,
/// `a * (b * c) == (a * b) * c`, `a * 1 == a` and `a * (b + c) == a * b + a * c`.
pub proof fn lemma_gf2p32_mul(a: gf2p32, b: gf2p32, c: gf2p32)
    requires
        a.wf(),
    ensures
        mulmod(a.0 as nat, b.0 as nat, 0x1000000af) == mulmod(b.0 as nat, a.0 as nat, 0x1000000af),
        mulmod(a.0 as nat, mulmod(b.0 as nat, c.0 as nat, 0x1000000af), 0x1000000af)
            == mulmod(mulmod(a.0 as nat, b.0 as nat, 0x1000000af), c.0 as nat, 0x1000000af),
        mulmod(a.0 as nat, 1, 0x1000000af) == a.0,
        mulmod(a.0 as nat, pxor(b.0 as nat, c.0 as nat), 0x1000000af)
            == pxor(mulmod(a.0 as nat, b.0 as nat, 0x1000000af), mulmod(a.0 as nat, c.0 as nat, 0x1000000af)),
{
    gf2p32_poly_facts();
    lemma_mul_laws(a.0 as nat, b.0 as nat, c.0 as nat, 0x1000000af, 32);
}

/// Squaring in `gf2p32` is additive: `(a + b)^2 == a^2 + b^2`.
pub proof fn lemma_gf2p32_square_sum(a: gf2p32, b: gf2p32)
    ensures
        mulmod(pxor(a.0 as nat, b.0 as nat), pxor(a.0 as nat, b.0 as nat), 0x1000000af)
            == pxor(mulmod(a.0 as nat, a.0 as nat, 0x1000000af), mulmod(b.0 as nat, b.0 as nat, 0x1000000af)),
{
    gf2p32_poly_facts();
    crate::field::lemma_square_sum(a.0 as nat, b.0 as nat, 0x1000000af);
}

/// Division in `gf2p32` undoes multiplication and the inverse is one: for every
/// non-zero `b`, `(a * b) / b == a` and `b * b.recip() == 1`.
pub proof fn lemma_gf2p32_div(a: gf2p32, b: gf2p32)
    requires
        a.wf(),
        b.wf(),
        b.0 != 0,
    ensures
        mulmod(mulmod(a.0 as nat, b.0 as nat, 0x1000000af), powmod(b.0 as nat, (exp2(32) - 2) as nat, 0x1000000af), 0x1000000af) == a.0,
        mulmod(b.0 as nat, powmod(b.0 as nat, (exp2(32) - 2) as nat, 0x1000000af), 0x1000000af) == 1,
{
    gf2p32_poly_facts();
    crate::order::lemma_gf2p32_field();
    assert(powmod(b.0 as nat, (exp2(32) - 1) as nat, 0x1000000af) == 1);
    lemma_div_laws(a.0 as nat, b.0 as nat, 0x1000000af, 32);
}

/// The field `GF(2^64)` defined by the polynomial `0x1000000000000001b`, with generator `0x2`.
#[derive(Clone, Copy, Debug, PartialEq, Eq, Structural)]
pub struct gf2p64(pub u64);

/// `gf2p64` has `64`-digit elements and the defining polynomial has `65` digits.
proof fn gf2p64_poly_facts()
    ensures
        bitlen(0x1000000000000001b) == 65,
        exp2(64) == 0x10000000000000000,
{
    crate::bits::lemma_exp2_values();
    assert(exp2(65) == 2 * exp2(64));
    crate::poly::lemma_bitlen_exact(0x1000000000000001b, 65);
}

impl gf2p64 {
    /// The irreducible polynomial that defines the field.
    pub const POLYNOMIAL: u128 = 0x1000000000000001b;
    /// The number of non-zero elements.
    pub const NONZEROS: u64 = 0xffffffffffffffff;

    /// The element's digits are within the field's width.
    pub open spec fn wf(self) -> bool {
        (self.0 as nat) < exp2(64)
    }

    /// A generator of the multiplicative group of the field.
    pub fn generator() -> (r: gf2p64)
        ensures
            r.0 == 0x2,
            r.wf(),
    {
        proof {
            gf2p64_poly_facts();
        }
        gf2p64(0x2)
    }

    pub fn new(x: u64) -> (r: gf2p64)
        ensures
            r.0 == x,
            r.wf(),
    {
        proof {
            gf2p64_poly_facts();
        }
        gf2p64(x)
    }

    pub fn get(self) -> (r: u64)
        ensures
            r == self.0,
    {
        self.0
    }

    /// Field addition, the exclusive or of the digits.
    pub fn naive_add(self, other: gf2p64) -> (r: gf2p64)
        requires
            self.wf(),
            other.wf(),
        ensures
            r.0 == self.0 ^ other.0,
            r.0 as nat == pxor(self.0 as nat, other.0 as nat),
            r.wf(),
    {
        proof {
            lemma_xor(self.0 as u128, other.0 as u128);
            let (a, b) = (self.0, other.0);
            assert((a ^ b) as u128 == (a as u128) ^ (b as u128)) by (bit_vector);
            crate::poly::lemma_pxor_bound(a as nat, b as nat, 64);
        }
        gf2p64(self.0 ^ other.0)
    }

    /// Field subtraction, which is the same as addition.
    pub fn naive_sub(self, other: gf2p64) -> (r: gf2p64)
        requires
            self.wf(),
            other.wf(),
        ensures
            r.0 == self.0 ^ other.0,
            r.0 as nat == pxor(self.0 as nat, other.0 as nat),
            r.wf(),
    {
        self.naive_add(other)
    }

    /// Field multiplication: the product modulo the field's polynomial.
    pub fn naive_mul(self, other: gf2p64) -> (r: gf2p64)
        requires
            self.wf(),
            other.wf(),
        ensures
            r.0 as nat == mulmod(self.0 as nat, other.0 as nat, 0x1000000000000001b),
            r.wf(),
    {
        proof {
            gf2p64_poly_facts();
        }
        let r = mulmod_u128(self.0 as u128, other.0 as u128, 0x1000000000000001b, 64);
        gf2p64(r as u64)
    }

    /// `self` raised to the power `exp`.
    pub fn naive_pow(self, exp: u64) -> (r: gf2p64)
        requires
            self.wf(),
        ensures
            r.0 as nat == powmod(self.0 as nat, exp as nat, 0x1000000000000001b),
            r.wf(),
    {
        proof {
            gf2p64_poly_facts();
        }
        let r = powmod_u128(self.0 as u128, exp as u128, 0x1000000000000001b, 64);
        gf2p64(r as u64)
    }

    /// The multiplicative inverse, `self^(2^64 - 2)`; zero has none.
    pub fn naive_recip(self) -> (r: gf2p64)
        requires
            self.wf(),
            self.0 != 0,
        ensures
            r.0 as nat == powmod(self.0 as nat, (exp2(64) - 2) as nat, 0x1000000000000001b),
            r.wf(),
    {
        proof {
            gf2p64_poly_facts();
        }
        self.naive_pow(0xfffffffffffffffe)
    }

    /// Field division: multiplication by the inverse of the divisor.
    pub fn naive_div(self, other: gf2p64) -> (r: gf2p64)
        requires
            self.wf(),
            other.wf(),
            other.0 != 0,
        ensures
            r.0 as nat == mulmod(self.0 as nat, powmod(other.0 as nat, (exp2(64) - 2) as nat, 0x1000000000000001b), 0x1000000000000001b),
            r.wf(),
    {
        self.naive_mul(other.naive_recip())
    }

    /// Field multiplication.
    pub fn mul(self, other: gf2p64) -> (r: gf2p64)
        requires
            self.wf(),
            other.wf(),
        ensures
            r.0 as nat == mulmod(self.0 as nat, other.0 as nat, 0x1000000000000001b),
            r.wf(),
    {
        self.naive_mul(other)
    }

    /// `self` raised to the power `exp`.
    pub fn pow(self, exp: u64) -> (r: gf2p64)
        requires
            self.wf(),
        ensures
            r.0 as nat == powmod(self.0 as nat, exp as nat, 0x1000000000000001b),
            r.wf(),
    {
        self.naive_pow(exp)
    }

    /// The multiplicative inverse; zero has none.
    pub fn recip(self) -> (r: gf2p64)
        requires
            self.wf(),
            self.0 != 0,
        ensures
            r.0 as nat == powmod(self.0 as nat, (exp2(64) - 2) as nat, 0x1000000000000001b),
            r.wf(),
    {
        self.naive_recip()
    }

    /// The inverse, or `None` for zero.
    pub fn checked_recip(self) -> (r: Option<gf2p64>)
        requires
            self.wf(),
        ensures
            r is Some <==> self.0 != 0,
            r matches Some(x) ==> x.0 as nat == powmod(self.0 as nat, (exp2(64) - 2) as nat, 0x1000000000000001b),
    {
        if self.0 == 0 {
            None
        } else {
            Some(self.naive_recip())
        }
    }

    /// The quotient, or `None` when dividing by zero.
    pub fn checked_div(self, other: gf2p64) -> (r: Option<gf2p64>)
        requires
            self.wf(),
            other.wf(),
        ensures
            r is Some <==> other.0 != 0,
            r matches Some(x) ==> x.0 as nat
                == mulmod(self.0 as nat, powmod(other.0 as nat, (exp2(64) - 2) as nat, 0x1000000000000001b), 0x1000000000000001b),
    {
        if other.0 == 0 {
            None
        } else {
            Some(self.naive_div(other))
        }
    }
}

impl core::ops::Add for gf2p64 {
    type Output = gf2p64;

    fn add(self, other: gf2p64) -> (r: gf2p64) {
        self.naive_add(other)
    }
}

impl vstd::std_specs::ops::AddSpecImpl for gf2p64 {
    open spec fn obeys_add_spec() -> bool {
        true
    }

    open spec fn add_req(self, other: gf2p64) -> bool {
        self.wf() && other.wf()
    }

    open spec fn add_spec(self, other: gf2p64) -> gf2p64 {
        gf2p64(self.0 ^ other.0)
    }
}

impl core::ops::Sub for gf2p64 {
    type Output = gf2p64;

    fn sub(self, other: gf2p64) -> (r: gf2p64) {
        self.naive_sub(other)
    }
}

impl vstd::std_specs::ops::SubSpecImpl for gf2p64 {
    open spec fn obeys_sub_spec() -> bool {
        true
    }

    open spec fn sub_req(self, other: gf2p64) -> bool {
        self.wf() && other.wf()
    }

    open spec fn sub_spec(self, other: gf2p64) -> gf2p64 {
        gf2p64(self.0 ^ other.0)
    }
}

impl core::ops::Mul for gf2p64 {
    type Output = gf2p64;

    fn mul(self, other: gf2p64) -> (r: gf2p64) {
        self.naive_mul(other)
    }
}

impl vstd::std_specs::ops::MulSpecImpl for gf2p64 {
    open spec fn obeys_mul_spec() -> bool {
        true
    }

    open spec fn mul_req(self, other: gf2p64) -> bool {
        self.wf() && other.wf()
    }

    open spec fn mul_spec(self, other: gf2p64) -> gf2p64 {
        gf2p64(mulmod(self.0 as nat, other.0 as nat, 0x1000000000000001b) as u64)
    }
}

impl core::ops::Div for gf2p64 {
    type Output = gf2p64;

    fn div(self, other: gf2p64) -> (r: gf2p64) {
        self.naive_div(other)
    }
}

impl vstd::std_specs::ops::DivSpecImpl for gf2p64 {
    open spec fn obeys_div_spec() -> bool {
        true
    }

    open spec fn div_req(self, other: gf2p64) -> bool {
        self.wf() && other.wf() && other.0 != 0
    }

    open spec fn div_spec(self, other: gf2p64) -> gf2p64 {
        gf2p64(mulmod(self.0 as nat, powmod(other.0 as nat, (exp2(64) - 2) as nat, 0x1000000000000001b), 0x1000000000000001b) as u64)
    }
}

/// Addition in `gf2p64` is commutative and associative, has zero as its
/// identity, and subtraction undoes it: `a + b == b + a`,
/// `a + (b + c) == (a + b) + c`, `a + 0 == a` and `(a + b) - b == a`.
pub proof fn lemma_gf2p64_add(a: gf2p64, b: gf2p64, c: gf2p64)
    ensures
        pxor(a.0 as nat, b.0 as nat) == pxor(b.0 as nat, a.0 as nat),
        pxor(a.0 as nat, pxor(b.0 as nat, c.0 as nat)) == pxor(pxor(a.0 as nat, b.0 as nat), c.0 as nat),
        pxor(a.0 as nat, 0) == a.0,
        pxor(pxor(a.0 as nat, b.0 as nat), b.0 as nat) == a.0,
{
    lemma_add_laws(a.0 as nat, b.0 as nat, c.0 as nat);
}

/// Multiplication in `gf2p64` is commutative and associative, has one as its
/// identity and distributes over addition: `a * b == b * a`,
/// `a * (b * c) == (a * b) * c`, `a * 1 == a` and `a * (b + c) == a * b + a * c`.
pub proof fn lemma_gf2p64_mul(a: gf2p64, b: gf2p64, c: gf2p64)
    requires
        a.wf(),
    ensures
        mulmod(a.0 as nat, b.0 as nat, 0x1000000000000001b) == mulmod(b.0 as nat, a.0 as nat, 0x1000000000000001b),
        mulmod(a.0 as nat, mulmod(b.0 as nat, c.0 as nat, 0x1000000000000001b), 0x1000000000000001b)
            == mulmod(mulmod(a.0 as nat, b.0 as nat, 0x1000000000000001b), c.0 as nat, 0x1000000000000001b),
        mulmod(a.0 as nat, 1, 0x1000000000000001b) == a.0,
        mulmod(a.0 as nat, pxor(b.0 as nat, c.0 as nat), 0x1000000000000001b)
            == pxor(mulmod(a.0 as nat, b.0 as nat, 0x1000000000000001b), mulmod(a.0 as nat, c.0 as nat, 0x1000000000000001b)),
{
    gf2p64_poly_facts();
    lemma_mul_laws(a.0 as nat, b.0 as nat, c.0 as nat, 0x1000000000000001b, 64);
}

/// Squaring in `gf2p64` is additive: `(a + b)^2 == a^2 + b^2`.
pub proof fn lemma_gf2p64_square_sum(a: gf2p64, b: gf2p64)
    ensures
        mulmod(pxor(a.0 as nat, b.0 as nat), pxor(a.0 as nat, b.0 as nat), 0x1000000000000001b)
            == pxor(mulmod(a.0 as nat, a.0 as nat, 0x1000000000000001b), mulmod(b.0 as nat, b.0 as nat, 0x1000000000000001b)),
{
    gf2p64_poly_facts();
    crate::field::lemma_square_sum(a.0 as nat, b.0 as nat, 0x1000000000000001b);
}

/// Division in `gf2p64` undoes multiplication and the inverse is one: for every
/// non-zero `b`, `(a * b) / b == a` and `b * b.recip() == 1`.
pub proof fn lemma_gf2p64_div(a: gf2p64, b: gf2p64)
    requires
        a.wf(),
        b.wf(),
        b.0 != 0,
    ensures
        mulmod(mulmod(a.0 as nat, b.0 as nat, 0x1000000000000001b), powmod(b.0 as nat, (exp2(64) - 2) as nat, 0x1000000000000001b), 0x1000000000000001b) == a.0,
        mulmod(b.0 as nat, powmod(b.0 as nat, (exp2(64) - 2) as nat, 0x1000000000000001b), 0x1000000000000001b) == 1,
{
    gf2p64_poly_facts();
    crate::order::lemma_gf2p64_field();
    assert(powmod(b.0 as nat, (exp2(64) - 1) as nat, 0x1000000000000001b) == 1);
    lemma_div_laws(a.0 as nat, b.0 as nat, 0x1000000000000001b, 64);
}

/// The digits of a `gf16` as a `u8`.
impl From<gf16> for u8 {
    fn from(x: gf16) -> (r: u8) {
        x.0
    }
}

impl vstd::std_specs::convert::FromSpecImpl<gf16> for u8 {
    open spec fn obeys_from_spec() -> bool {
        true
    }

    open spec fn from_spec(x: gf16) -> u8 {
        x.0
    }
}

/// A `u8` as a `gf256`, digit for digit.
impl From<u8> for gf256 {
    fn from(x: u8) -> (r: gf256) {
        gf256(x)
    }
}

impl vstd::std_specs::convert::FromSpecImpl<u8> for gf256 {
    open spec fn obeys_from_spec() -> bool {
        true
    }

    open spec fn from_spec(x: u8) -> gf256 {
        gf256(x)
    }
}

/// The digits of a `gf256` as a `u8`.
impl From<gf256> for u8 {
    fn from(x: gf256) -> (r: u8) {
        x.0
    }
}

impl vstd::std_specs::convert::FromSpecImpl<gf256> for u8 {
    open spec fn obeys_from_spec() -> bool {
        true
    }

    open spec fn from_spec(x: gf256) -> u8 {
        x.0
    }
}

/// A `u8` as a `gf256_rijndael`, digit for digit.
impl From<u8> for gf256_rijndael {
    fn from(x: u8) -> (r: gf256_rijndael) {
        gf256_rijndael(x)
    }
}

impl vstd::std_specs::convert::FromSpecImpl<u8> for gf256_rijndael {
    open spec fn obeys_from_spec() -> bool {
        true
    }

    open spec fn from_spec(x: u8) -> gf256_rijndael {
        gf256_rijndael(x)
    }
}

/// The digits of a `gf256_rijndael` as a `u8`.
impl From<gf256_rijndael> for u8 {
    fn from(x: gf256_rijndael) -> (r: u8) {
        x.0
    }
}

impl vstd::std_specs::convert::FromSpecImpl<gf256_rijndael> for u8 {
    open spec fn obeys_from_spec() -> bool {
        true
    }

    open spec fn from_spec(x: gf256_rijndael) -> u8 {
        x.0
    }
}

/// The digits of a `gf4096` as a `u16`.
impl From<gf4096> for u16 {
    fn from(x: gf4096) -> (r: u16) {
        x.0
    }
}

impl vstd::std_specs::convert::FromSpecImpl<gf4096> for u16 {
    open spec fn obeys_from_spec() -> bool {
        true
    }

    open spec fn from_spec(x: gf4096) -> u16 {
        x.0
    }
}

/// A `u16` as a `gf2p16`, digit for digit.
impl From<u16> for gf2p16 {
    fn from(x: u16) -> (r: gf2p16) {
        gf2p16(x)
    }
}

impl vstd::std_specs::convert::FromSpecImpl<u16> for gf2p16 {
    open spec fn obeys_from_spec() -> bool {
        true
    }

    open spec fn from_spec(x: u16) -> gf2p16 {
        gf2p16(x)
    }
}

/// The digits of a `gf2p16` as a `u16`.
impl From<gf2p16> for u16 {
    fn from(x: gf2p16) -> (r: u16) {
        x.0
    }
}

impl vstd::std_specs::convert::FromSpecImpl<gf2p16> for u16 {
    open spec fn obeys_from_spec() -> bool {
        true
    }

    open spec fn from_spec(x: gf2p16) -> u16 {
        x.0
    }
}

/// The digits of a `gf2p23` as a `u32`.
impl From<gf2p23> for u32 {
    fn from(x: gf2p23) -> (r: u32) {
        x.0
    }
}

impl vstd::std_specs::convert::FromSpecImpl<gf2p23> for u32 {
    open spec fn obeys_from_spec() -> bool {
        true
    }

    open spec fn from_spec(x: gf2p23) -> u32 {
        x.0
    }
}

/// A `u32` as a `gf2p32`, digit for digit.
impl From<u32> for gf2p32 {
    fn from(x: u32) -> (r: gf2p32) {
        gf2p32(x)
    }
}

impl vstd::std_specs::convert::FromSpecImpl<u32> for gf2p32 {
    open spec fn obeys_from_spec() -> bool {
        true
    }

    open spec fn from_spec(x: u32) -> gf2p32 {
        gf2p32(x)
    }
}

/// The digits of a `gf2p32` as a `u32`.
impl From<gf2p32> for u32 {
    fn from(x: gf2p32) -> (r: u32) {
        x.0
    }
}

impl vstd::std_specs::convert::FromSpecImpl<gf2p32> for u32 {
    open spec fn obeys_from_spec() -> bool {
        true
    }

    open spec fn from_spec(x: gf2p32) -> u32 {
        x.0
    }
}

/// A `u64` as a `gf2p64`, digit for digit.
impl From<u64> for gf2p64 {
    fn from(x: u64) -> (r: gf2p64) {
        gf2p64(x)
    }
}

impl vstd::std_specs::convert::FromSpecImpl<u64> for gf2p64 {
    open spec fn obeys_from_spec() -> bool {
        true
    }

    open spec fn from_spec(x: u64) -> gf2p64 {
        gf2p64(x)
    }
}

/// The digits of a `gf2p64` as a `u64`.
impl From<gf2p64> for u64 {
    fn from(x: gf2p64) -> (r: u64) {
        x.0
    }
}

impl vstd::std_specs::convert::FromSpecImpl<gf2p64> for u64 {
    open spec fn obeys_from_spec() -> bool {
        true
    }

    open spec fn from_spec(x: gf2p64) -> u64 {
        x.0
    }
}

} // verus!
