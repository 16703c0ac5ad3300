//! Binary polynomial types.
//!
//! `pN` holds a binary polynomial of at most `N` digits in a `uN`: bit `i` is
//! the coefficient of `x^i`. Addition and subtraction are exclusive or;
//! multiplication is the carry-less product, which like integer
//! multiplication may overflow the type; division and remainder are
//! polynomial long division.

#![allow(non_camel_case_types)]

use vstd::prelude::*;
use vstd::arithmetic::div_mod::lemma_fundamental_div_mod_converse;
use crate::poly::{
    exp2, bitlen, pxor, pmul, pdiv, pmod, powmod, lemma_exp2_pos, lemma_exp2_mono,
    lemma_bitlen_bound, lemma_bitlen_le, lemma_bitlen_exact, lemma_pdiv_bitlen, lemma_pmod_bound,
    lemma_pmod_exp2, lemma_pdivmod,
};
use crate::bits::{lemma_xor, lemma_exp2_values};
use crate::arith::{pdivmod_u128, powmod_u128};
use crate::xmul::{xmul8, xmul16, xmul32, xmul64, xmul128};

verus! {

/// A quotient of polynomials is no longer than the dividend.
proof fn lemma_pdiv_le(a: nat, m: nat, n: nat)
    requires
        m > 0,
        a < exp2(n),
    ensures
        pdiv(a, m) < exp2(n),
        pmod(a, m) < exp2(n),
{
    lemma_pdiv_bitlen(a, m);
    lemma_bitlen_bound(a);
    lemma_bitlen_bound(pdiv(a, m));
    lemma_bitlen_le(a, n);
    lemma_bitlen_bound(m);
    if bitlen(a) >= bitlen(m) {
        lemma_exp2_mono(bitlen(pdiv(a, m)), n);
    }
    lemma_exp2_pos(n);
    lemma_pmod_bound(a, m);
    lemma_bitlen_le(m, bitlen(m));
    crate::poly::lemma_pdivmod(a, m);
    if bitlen(pmod(a, m)) > bitlen(a) {
        assert(false) by {
            crate::poly::lemma_pxor_bitlen_le(pmul(pdiv(a, m), m), pmod(a, m));
            if pdiv(a, m) > 0 {
                crate::poly::lemma_pmul_bitlen(pdiv(a, m), m);
                crate::poly::lemma_pxor_bitlen_lt(pmod(a, m), pmul(pdiv(a, m), m));
            } else {
                crate::poly::lemma_pmul_zero(m);
                crate::poly::lemma_pxor_zero(pmod(a, m));
            }
        }
    }
    lemma_bitlen_bound(pmod(a, m));
    lemma_exp2_mono(bitlen(pmod(a, m)), n);
}

proof fn lemma_small(x: nat, n: nat)
    ensures
        x < exp2(n) ==> x % exp2(n) == x,
{
    lemma_exp2_pos(n);
    if x < exp2(n) {
        lemma_fundamental_div_mod_converse(x as int, exp2(n) as int, 0, x as int);
    }
}

/// Splitting a product into the digits that fit and the overflow.
proof fn lemma_split(lo: nat, hi: nat, n: nat, prod: nat)
    requires
        lo < exp2(n),
        lo + hi * exp2(n) == prod,
    ensures
        lo == prod % exp2(n),
        hi == prod / exp2(n),
        (hi != 0) == (prod >= exp2(n)),
{
    lemma_exp2_pos(n);
    lemma_fundamental_div_mod_converse(prod as int, exp2(n) as int, hi as int, lo as int);
    if hi != 0 {
        assert(hi * exp2(n) >= exp2(n)) by (nonlinear_arith)
            requires
                hi >= 1,
        ;
    }
}


/// Addition and multiplication of binary polynomials form a commutative
/// ring: both are commutative and associative, zero and one are their
/// identities, every polynomial is its own negative, and multiplication
/// distributes over addition.
pub proof fn lemma_ring_laws(a: nat, b: nat, c: nat)
    ensures
        pxor(a, b) == pxor(b, a),
        pxor(a, pxor(b, c)) == pxor(pxor(a, b), c),
        pxor(a, 0) == a,
        pxor(pxor(a, b), b) == a,
        pmul(a, b) == pmul(b, a),
        pmul(a, pmul(b, c)) == pmul(pmul(a, b), c),
        pmul(a, 1) == a,
        pmul(a, pxor(b, c)) == pxor(pmul(a, b), pmul(a, c)),
{
    crate::field::lemma_add_laws(a, b, c);
    crate::poly::lemma_pmul_comm(a, b);
    crate::poly::lemma_pmul_assoc(a, b, c);
    crate::poly::lemma_pmul_one_right(a);
    crate::poly::lemma_pmul_distrib_right(a, b, c);
}

/// Polynomial long division: the quotient times the divisor plus the
/// remainder is the dividend, the remainder is shorter than the divisor, and
/// a product divided by one factor gives back the other with no remainder:
/// `(a / b) * b + a % b == a` and `(a * b) / b == a`.
pub proof fn lemma_div_laws(a: nat, b: nat)
    requires
        b > 0,
    ensures
        pxor(pmul(pdiv(a, b), b), pmod(a, b)) == a,
        bitlen(pmod(a, b)) < bitlen(b),
        pdiv(pmul(a, b), b) == a,
        pmod(pmul(a, b), b) == 0,
{
    lemma_pdivmod(a, b);
    crate::poly::lemma_pxor_zero(pmul(a, b));
    crate::poly::lemma_pdivmod_unique(pmul(a, b), b, a, 0);
}

/// A binary polynomial of at most 8 digits.
#[derive(Clone, Copy, Debug, PartialEq, Eq, Structural)]
pub struct p8(pub u8);

impl p8 {
    /// The number of digits of the type.
    pub const WIDTH: usize = 8;

    pub fn new(x: u8) -> (r: p8)
        ensures
            r.0 == x,
    {
        p8(x)
    }

    pub fn get(self) -> (r: u8)
        ensures
            r == self.0,
    {
        self.0
    }

    /// Polynomial addition, the exclusive or of the digits.
    pub fn naive_add(self, other: p8) -> (r: p8)
        ensures
            r.0 == self.0 ^ other.0,
            r.0 as nat == pxor(self.0 as nat, other.0 as nat),
    {
        proof {
            lemma_xor(self.0 as u128, other.0 as u128);
            let (a, b) = (self.0, other.0);
            assert((a ^ b) as u128 == (a as u128) ^ (b as u128)) by (bit_vector);
        }
        p8(self.0 ^ other.0)
    }

    /// Polynomial subtraction, which is the same as addition.
    pub fn naive_sub(self, other: p8) -> (r: p8)
        ensures
            r.0 == self.0 ^ other.0,
            r.0 as nat == pxor(self.0 as nat, other.0 as nat),
    {
        self.naive_add(other)
    }

    /// The full product, as the low and the high 8 digits.
    pub fn naive_widening_mul(self, other: p8) -> (r: (p8, p8))
        ensures
            r.0.0 as nat + r.1.0 as nat * exp2(8) == pmul(self.0 as nat, other.0 as nat),
    {
        let (lo, hi) = xmul8(self.0, other.0);
        (p8(lo), p8(hi))
    }

    /// The full product, as the low and the high 8 digits.
    pub fn widening_mul(self, other: p8) -> (r: (p8, p8))
        ensures
            r.0.0 as nat + r.1.0 as nat * exp2(8) == pmul(self.0 as nat, other.0 as nat),
    {
        self.naive_widening_mul(other)
    }

    /// The product truncated to 8 digits, and whether digits were lost.
    pub fn naive_overflowing_mul(self, other: p8) -> (r: (p8, bool))
        ensures
            r.0.0 as nat == pmul(self.0 as nat, other.0 as nat) % exp2(8),
            r.1 == (pmul(self.0 as nat, other.0 as nat) >= exp2(8)),
    {
        let (lo, hi) = xmul8(self.0, other.0);
        proof {
            lemma_exp2_values();
            lemma_split(lo as nat, hi as nat, 8, pmul(self.0 as nat, other.0 as nat));
        }
        (p8(lo), hi != 0)
    }

    /// The product truncated to 8 digits, and whether digits were lost.
    pub fn overflowing_mul(self, other: p8) -> (r: (p8, bool))
        ensures
            r.0.0 as nat == pmul(self.0 as nat, other.0 as nat) % exp2(8),
            r.1 == (pmul(self.0 as nat, other.0 as nat) >= exp2(8)),
    {
        self.naive_overflowing_mul(other)
    }

    /// The product truncated to 8 digits.
    pub fn naive_wrapping_mul(self, other: p8) -> (r: p8)
        ensures
            r.0 as nat == pmul(self.0 as nat, other.0 as nat) % exp2(8),
    {
        self.naive_overflowing_mul(other).0
    }

    /// The product truncated to 8 digits.
    pub fn wrapping_mul(self, other: p8) -> (r: p8)
        ensures
            r.0 as nat == pmul(self.0 as nat, other.0 as nat) % exp2(8),
    {
        self.naive_wrapping_mul(other)
    }

    /// The product, or `None` if it does not fit in 8 digits.
    pub fn naive_checked_mul(self, other: p8) -> (r: Option<p8>)
        ensures
            r is Some <==> pmul(self.0 as nat, other.0 as nat) < exp2(8),
            r matches Some(x) ==> x.0 as nat == pmul(self.0 as nat, other.0 as nat),
    {
        let (lo, overflow) = self.naive_overflowing_mul(other);
        proof {
            lemma_small(pmul(self.0 as nat, other.0 as nat), 8);
        }
        if overflow {
            None
        } else {
            Some(lo)
        }
    }

    /// The product, or `None` if it does not fit in 8 digits.
    pub fn checked_mul(self, other: p8) -> (r: Option<p8>)
        ensures
            r is Some <==> pmul(self.0 as nat, other.0 as nat) < exp2(8),
            r matches Some(x) ==> x.0 as nat == pmul(self.0 as nat, other.0 as nat),
    {
        self.naive_checked_mul(other)
    }

    /// The product; it must fit in 8 digits.
    pub fn naive_mul(self, other: p8) -> (r: p8)
        requires
            pmul(self.0 as nat, other.0 as nat) < exp2(8),
        ensures
            r.0 as nat == pmul(self.0 as nat, other.0 as nat),
    {
        let (lo, _) = self.naive_overflowing_mul(other);
        proof {
            lemma_small(pmul(self.0 as nat, other.0 as nat), 8);
        }
        lo
    }

    /// The quotient of polynomial division.
    pub fn naive_div(self, other: p8) -> (r: p8)
        requires
            other.0 != 0,
        ensures
            r.0 as nat == pdiv(self.0 as nat, other.0 as nat),
    {
        let (q, _) = pdivmod_u128(self.0 as u128, other.0 as u128);
        proof {
            lemma_exp2_values();
            lemma_pdiv_le(self.0 as nat, other.0 as nat, 8);
        }
        p8(q as u8)
    }

    /// The remainder of polynomial division.
    pub fn naive_rem(self, other: p8) -> (r: p8)
        requires
            other.0 != 0,
        ensures
            r.0 as nat == pmod(self.0 as nat, other.0 as nat),
    {
        let (_, rem) = pdivmod_u128(self.0 as u128, other.0 as u128);
        proof {
            lemma_exp2_values();
            lemma_pdiv_le(self.0 as nat, other.0 as nat, 8);
        }
        p8(rem as u8)
    }

    /// The quotient, or `None` when dividing by zero.
    pub fn checked_div(self, other: p8) -> (r: Option<p8>)
        ensures
            r is Some <==> other.0 != 0,
            r matches Some(x) ==> x.0 as nat == pdiv(self.0 as nat, other.0 as nat),
    {
        if other.0 == 0 {
            None
        } else {
            Some(self.naive_div(other))
        }
    }

    /// The remainder, or `None` when dividing by zero.
    pub fn checked_rem(self, other: p8) -> (r: Option<p8>)
        ensures
            r is Some <==> other.0 != 0,
            r matches Some(x) ==> x.0 as nat == pmod(self.0 as nat, other.0 as nat),
    {
        if other.0 == 0 {
            None
        } else {
            Some(self.naive_rem(other))
        }
    }

    /// `self` raised to the power `exp`, truncated to 8 digits.
    pub fn naive_wrapping_pow(self, exp: u32) -> (r: p8)
        ensures
            r.0 as nat == powmod(self.0 as nat, exp as nat, exp2(8)),
    {
        proof {
            lemma_exp2_values();
            lemma_exp2_pos(8);
            lemma_bitlen_exact(exp2(8), 8 + 1);
        }
        let r = powmod_u128(self.0 as u128, exp as u128, 0x100, 8);
        p8(r as u8)
    }

    /// `self` raised to the power `exp`, truncated to 8 digits.
    pub fn wrapping_pow(self, exp: u32) -> (r: p8)
        ensures
            r.0 as nat == powmod(self.0 as nat, exp as nat, exp2(8)),
    {
        self.naive_wrapping_pow(exp)
    }
}

impl core::ops::Add for p8 {
    type Output = p8;

    fn add(self, other: p8) -> (r: p8) {
        self.naive_add(other)
    }
}

impl vstd::std_specs::ops::AddSpecImpl for p8 {
    open spec fn obeys_add_spec() -> bool {
        true
    }

    open spec fn add_req(self, other: p8) -> bool {
        true
    }

    open spec fn add_spec(self, other: p8) -> p8 {
        p8(self.0 ^ other.0)
    }
}

impl core::ops::Sub for p8 {
    type Output = p8;

    fn sub(self, other: p8) -> (r: p8) {
        self.naive_sub(other)
    }
}

impl vstd::std_specs::ops::SubSpecImpl for p8 {
    open spec fn obeys_sub_spec() -> bool {
        true
    }

    open spec fn sub_req(self, other: p8) -> bool {
        true
    }

    open spec fn sub_spec(self, other: p8) -> p8 {
        p8(self.0 ^ other.0)
    }
}

impl core::ops::Mul for p8 {
    type Output = p8;

    fn mul(self, other: p8) -> (r: p8) {
        self.naive_mul(other)
    }
}

impl vstd::std_specs::ops::MulSpecImpl for p8 {
    open spec fn obeys_mul_spec() -> bool {
        true
    }

    open spec fn mul_req(self, other: p8) -> bool {
        pmul(self.0 as nat, other.0 as nat) < exp2(8)
    }

    open spec fn mul_spec(self, other: p8) -> p8 {
        p8(pmul(self.0 as nat, other.0 as nat) as u8)
    }
}

impl core::ops::Div for p8 {
    type Output = p8;

    fn div(self, other: p8) -> (r: p8) {
        self.naive_div(other)
    }
}

impl vstd::std_specs::ops::DivSpecImpl for p8 {
    open spec fn obeys_div_spec() -> bool {
        true
    }

    open spec fn div_req(self, other: p8) -> bool {
        other.0 != 0
    }

    open spec fn div_spec(self, other: p8) -> p8 {
        p8(pdiv(self.0 as nat, other.0 as nat) as u8)
    }
}

impl core::ops::Rem for p8 {
    type Output = p8;

    fn rem(self, other: p8) -> (r: p8) {
        self.naive_rem(other)
    }
}

impl vstd::std_specs::ops::RemSpecImpl for p8 {
    open spec fn obeys_rem_spec() -> bool {
        true
    }

    open spec fn rem_req(self, other: p8) -> bool {
        other.0 != 0
    }

    open spec fn rem_spec(self, other: p8) -> p8 {
        p8(pmod(self.0 as nat, other.0 as nat) as u8)
    }
}

/// The ring laws of `p8`: `a + b == b + a`, `a + (b + c) == (a + b) + c`,
/// `a + 0 == a`, `(a + b) - b == a`, `a * b == b * a`,
/// `a * (b * c) == (a * b) * c`, `a * 1 == a`, `a * (b + c) == a * b + a * c`,
/// over the polynomials the values hold.
pub proof fn lemma_p8_ring(a: p8, b: p8, c: p8)
    ensures
        pxor(a.0 as nat, b.0 as nat) == pxor(b.0 as nat, a.0 as nat),
        pxor(a.0 as nat, pxor(b.0 as nat, c.0 as nat)) == pxor(pxor(a.0 as nat, b.0 as nat), c.0 as nat),
        pxor(a.0 as nat, 0) == a.0,
        pxor(pxor(a.0 as nat, b.0 as nat), b.0 as nat) == a.0,
        pmul(a.0 as nat, b.0 as nat) == pmul(b.0 as nat, a.0 as nat),
        pmul(a.0 as nat, pmul(b.0 as nat, c.0 as nat)) == pmul(pmul(a.0 as nat, b.0 as nat), c.0 as nat),
        pmul(a.0 as nat, 1) == a.0,
        pmul(a.0 as nat, pxor(b.0 as nat, c.0 as nat))
            == pxor(pmul(a.0 as nat, b.0 as nat), pmul(a.0 as nat, c.0 as nat)),
{
    lemma_ring_laws(a.0 as nat, b.0 as nat, c.0 as nat);
}

/// Division in `p8`: `(a / b) * b + a % b == a` with `a % b` shorter than
/// `b`, and `(a * b) / b == a`, `(a * b) % b == 0`, for every non-zero `b`.
pub proof fn lemma_p8_div(a: p8, b: p8)
    requires
        b.0 != 0,
    ensures
        pxor(pmul(pdiv(a.0 as nat, b.0 as nat), b.0 as nat), pmod(a.0 as nat, b.0 as nat)) == a.0,
        bitlen(pmod(a.0 as nat, b.0 as nat)) < bitlen(b.0 as nat),
        pdiv(pmul(a.0 as nat, b.0 as nat), b.0 as nat) == a.0,
        pmod(pmul(a.0 as nat, b.0 as nat), b.0 as nat) == 0,
{
    lemma_div_laws(a.0 as nat, b.0 as nat);
}

/// A binary polynomial of at most 16 digits.
#[derive(Clone, Copy, Debug, PartialEq, Eq, Structural)]
pub struct p16(pub u16);

impl p16 {
    /// The number of digits of the type.
    pub const WIDTH: usize = 16;

    pub fn new(x: u16) -> (r: p16)
        ensures
            r.0 == x,
    {
        p16(x)
    }

    pub fn get(self) -> (r: u16)
        ensures
            r == self.0,
    {
        self.0
    }

    /// Polynomial addition, the exclusive or of the digits.
    pub fn naive_add(self, other: p16) -> (r: p16)
        ensures
            r.0 == self.0 ^ other.0,
            r.0 as nat == pxor(self.0 as nat, other.0 as nat),
    {
        proof {
            lemma_xor(self.0 as u128, other.0 as u128);
            let (a, b) = (self.0, other.0);
            assert((a ^ b) as u128 == (a as u128) ^ (b as u128)) by (bit_vector);
        }
        p16(self.0 ^ other.0)
    }

    /// Polynomial subtraction, which is the same as addition.
    pub fn naive_sub(self, other: p16) -> (r: p16)
        ensures
            r.0 == self.0 ^ other.0,
            r.0 as nat == pxor(self.0 as nat, other.0 as nat),
    {
        self.naive_add(other)
    }

    /// The full product, as the low and the high 16 digits.
    pub fn naive_widening_mul(self, other: p16) -> (r: (p16, p16))
        ensures
            r.0.0 as nat + r.1.0 as nat * exp2(16) == pmul(self.0 as nat, other.0 as nat),
    {
        let (lo, hi) = xmul16(self.0, other.0);
        (p16(lo), p16(hi))
    }

    /// The full product, as the low and the high 16 digits.
    pub fn widening_mul(self, other: p16) -> (r: (p16, p16))
        ensures
            r.0.0 as nat + r.1.0 as nat * exp2(16) == pmul(self.0 as nat, other.0 as nat),
    {
        self.naive_widening_mul(other)
    }

    /// The product truncated to 16 digits, and whether digits were lost.
    pub fn naive_overflowing_mul(self, other: p16) -> (r: (p16, bool))
        ensures
            r.0.0 as nat == pmul(self.0 as nat, other.0 as nat) % exp2(16),
            r.1 == (pmul(self.0 as nat, other.0 as nat) >= exp2(16)),
    {
        let (lo, hi) = xmul16(self.0, other.0);
        proof {
            lemma_exp2_values();
            lemma_split(lo as nat, hi as nat, 16, pmul(self.0 as nat, other.0 as nat));
        }
        (p16(lo), hi != 0)
    }

    /// The product truncated to 16 digits, and whether digits were lost.
    pub fn overflowing_mul(self, other: p16) -> (r: (p16, bool))
        ensures
            r.0.0 as nat == pmul(self.0 as nat, other.0 as nat) % exp2(16),
            r.1 == (pmul(self.0 as nat, other.0 as nat) >= exp2(16)),
    {
        self.naive_overflowing_mul(other)
    }

    /// The product truncated to 16 digits.
    pub fn naive_wrapping_mul(self, other: p16) -> (r: p16)
        ensures
            r.0 as nat == pmul(self.0 as nat, other.0 as nat) % exp2(16),
    {
        self.naive_overflowing_mul(other).0
    }

    /// The product truncated to 16 digits.
    pub fn wrapping_mul(self, other: p16) -> (r: p16)
        ensures
            r.0 as nat == pmul(self.0 as nat, other.0 as nat) % exp2(16),
    {
        self.naive_wrapping_mul(other)
    }

    /// The product, or `None` if it does not fit in 16 digits.
    pub fn naive_checked_mul(self, other: p16) -> (r: Option<p16>)
        ensures
            r is Some <==> pmul(self.0 as nat, other.0 as nat) < exp2(16),
            r matches Some(x) ==> x.0 as nat == pmul(self.0 as nat, other.0 as nat),
    {
        let (lo, overflow) = self.naive_overflowing_mul(other);
        proof {
            lemma_small(pmul(self.0 as nat, other.0 as nat), 16);
        }
        if overflow {
            None
        } else {
            Some(lo)
        }
    }

    /// The product, or `None` if it does not fit in 16 digits.
    pub fn checked_mul(self, other: p16) -> (r: Option<p16>)
        ensures
            r is Some <==> pmul(self.0 as nat, other.0 as nat) < exp2(16),
            r matches Some(x) ==> x.0 as nat == pmul(self.0 as nat, other.0 as nat),
    {
        self.naive_checked_mul(other)
    }

    /// The product; it must fit in 16 digits.
    pub fn naive_mul(self, other: p16) -> (r: p16)
        requires
            pmul(self.0 as nat, other.0 as nat) < exp2(16),
        ensures
            r.0 as nat == pmul(self.0 as nat, other.0 as nat),
    {
        let (lo, _) = self.naive_overflowing_mul(other);
        proof {
            lemma_small(pmul(self.0 as nat, other.0 as nat), 16);
        }
        lo
    }

    /// The quotient of polynomial division.
    pub fn naive_div(self, other: p16) -> (r: p16)
        requires
            other.0 != 0,
        ensures
            r.0 as nat == pdiv(self.0 as nat, other.0 as nat),
    {
        let (q, _) = pdivmod_u128(self.0 as u128, other.0 as u128);
        proof {
            lemma_exp2_values();
            lemma_pdiv_le(self.0 as nat, other.0 as nat, 16);
        }
        p16(q as u16)
    }

    /// The remainder of polynomial division.
    pub fn naive_rem(self, other: p16) -> (r: p16)
        requires
            other.0 != 0,
        ensures
            r.0 as nat == pmod(self.0 as nat, other.0 as nat),
    {
        let (_, rem) = pdivmod_u128(self.0 as u128, other.0 as u128);
        proof {
            lemma_exp2_values();
            lemma_pdiv_le(self.0 as nat, other.0 as nat, 16);
        }
        p16(rem as u16)
    }

    /// The quotient, or `None` when dividing by zero.
    pub fn checked_div(self, other: p16) -> (r: Option<p16>)
        ensures
            r is Some <==> other.0 != 0,
            r matches Some(x) ==> x.0 as nat == pdiv(self.0 as nat, other.0 as nat),
    {
        if other.0 == 0 {
            None
        } else {
            Some(self.naive_div(other))
        }
    }

    /// The remainder, or `None` when dividing by zero.
    pub fn checked_rem(self, other: p16) -> (r: Option<p16>)
        ensures
            r is Some <==> other.0 != 0,
            r matches Some(x) ==> x.0 as nat == pmod(self.0 as nat, other.0 as nat),
    {
        if other.0 == 0 {
            None
        } else {
            Some(self.naive_rem(other))
        }
    }

    /// `self` raised to the power `exp`, truncated to 16 digits.
    pub fn naive_wrapping_pow(self, exp: u32) -> (r: p16)
        ensures
            r.0 as nat == powmod(self.0 as nat, exp as nat, exp2(16)),
    {
        proof {
            lemma_exp2_values();
            lemma_exp2_pos(16);
            lemma_bitlen_exact(exp2(16), 16 + 1);
        }
        let r = powmod_u128(self.0 as u128, exp as u128, 0x1_0000, 16);
        p16(r as u16)
    }

    /// `self` raised to the power `exp`, truncated to 16 digits.
    pub fn wrapping_pow(self, exp: u32) -> (r: p16)
        ensures
            r.0 as nat == powmod(self.0 as nat, exp as nat, exp2(16)),
    {
        self.naive_wrapping_pow(exp)
    }
}

impl core::ops::Add for p16 {
    type Output = p16;

    fn add(self, other: p16) -> (r: p16) {
        self.naive_add(other)
    }
}

impl vstd::std_specs::ops::AddSpecImpl for p16 {
    open spec fn obeys_add_spec() -> bool {
        true
    }

    open spec fn add_req(self, other: p16) -> bool {
        true
    }

    open spec fn add_spec(self, other: p16) -> p16 {
        p16(self.0 ^ other.0)
    }
}

impl core::ops::Sub for p16 {
    type Output = p16;

    fn sub(self, other: p16) -> (r: p16) {
        self.naive_sub(other)
    }
}

impl vstd::std_specs::ops::SubSpecImpl for p16 {
    open spec fn obeys_sub_spec() -> bool {
        true
    }

    open spec fn sub_req(self, other: p16) -> bool {
        true
    }

    open spec fn sub_spec(self, other: p16) -> p16 {
        p16(self.0 ^ other.0)
    }
}

impl core::ops::Mul for p16 {
    type Output = p16;

    fn mul(self, other: p16) -> (r: p16) {
        self.naive_mul(other)
    }
}

impl vstd::std_specs::ops::MulSpecImpl for p16 {
    open spec fn obeys_mul_spec() -> bool {
        true
    }

    open spec fn mul_req(self, other: p16) -> bool {
        pmul(self.0 as nat, other.0 as nat) < exp2(16)
    }

    open spec fn mul_spec(self, other: p16) -> p16 {
        p16(pmul(self.0 as nat, other.0 as nat) as u16)
    }
}

impl core::ops::Div for p16 {
    type Output = p16;

    fn div(self, other: p16) -> (r: p16) {
        self.naive_div(other)
    }
}

impl vstd::std_specs::ops::DivSpecImpl for p16 {
    open spec fn obeys_div_spec() -> bool {
        true
    }

    open spec fn div_req(self, other: p16) -> bool {
        other.0 != 0
    }

    open spec fn div_spec(self, other: p16) -> p16 {
        p16(pdiv(self.0 as nat, other.0 as nat) as u16)
    }
}

impl core::ops::Rem for p16 {
    type Output = p16;

    fn rem(self, other: p16) -> (r: p16) {
        self.naive_rem(other)
    }
}

impl vstd::std_specs::ops::RemSpecImpl for p16 {
    open spec fn obeys_rem_spec() -> bool {
        true
    }

    open spec fn rem_req(self, other: p16) -> bool {
        other.0 != 0
    }

    open spec fn rem_spec(self, other: p16) -> p16 {
        p16(pmod(self.0 as nat, other.0 as nat) as u16)
    }
}

/// The ring laws of `p16`: `a + b == b + a`, `a + (b + c) == (a + b) + c`,
/// `a + 0 == a`, `(a + b) - b == a`, `a * b == b * a`,
/// `a * (b * c) == (a * b) * c`, `a * 1 == a`, `a * (b + c) == a * b + a * c`,
/// over the polynomials the values hold.
pub proof fn lemma_p16_ring(a: p16, b: p16, c: p16)
    ensures
        pxor(a.0 as nat, b.0 as nat) == pxor(b.0 as nat, a.0 as nat),
        pxor(a.0 as nat, pxor(b.0 as nat, c.0 as nat)) == pxor(pxor(a.0 as nat, b.0 as nat), c.0 as nat),
        pxor(a.0 as nat, 0) == a.0,
        pxor(pxor(a.0 as nat, b.0 as nat), b.0 as nat) == a.0,
        pmul(a.0 as nat, b.0 as nat) == pmul(b.0 as nat, a.0 as nat),
        pmul(a.0 as nat, pmul(b.0 as nat, c.0 as nat)) == pmul(pmul(a.0 as nat, b.0 as nat), c.0 as nat),
        pmul(a.0 as nat, 1) == a.0,
        pmul(a.0 as nat, pxor(b.0 as nat, c.0 as nat))
            == pxor(pmul(a.0 as nat, b.0 as nat), pmul(a.0 as nat, c.0 as nat)),
{
    lemma_ring_laws(a.0 as nat, b.0 as nat, c.0 as nat);
}

/// Division in `p16`: `(a / b) * b + a % b == a` with `a % b` shorter than
/// `b`, and `(a * b) / b == a`, `(a * b) % b == 0`, for every non-zero `b`.
pub proof fn lemma_p16_div(a: p16, b: p16)
    requires
        b.0 != 0,
    ensures
        pxor(pmul(pdiv(a.0 as nat, b.0 as nat), b.0 as nat), pmod(a.0 as nat, b.0 as nat)) == a.0,
        bitlen(pmod(a.0 as nat, b.0 as nat)) < bitlen(b.0 as nat),
        pdiv(pmul(a.0 as nat, b.0 as nat), b.0 as nat) == a.0,
        pmod(pmul(a.0 as nat, b.0 as nat), b.0 as nat) == 0,
{
    lemma_div_laws(a.0 as nat, b.0 as nat);
}

/// A binary polynomial of at most 32 digits.
#[derive(Clone, Copy, Debug, PartialEq, Eq, Structural)]
pub struct p32(pub u32);

impl p32 {
    /// The number of digits of the type.
    pub const WIDTH: usize = 32;

    pub fn new(x: u32) -> (r: p32)
        ensures
            r.0 == x,
    {
        p32(x)
    }

    pub fn get(self) -> (r: u32)
        ensures
            r == self.0,
    {
        self.0
    }

    /// Polynomial addition, the exclusive or of the digits.
    pub fn naive_add(self, other: p32) -> (r: p32)
        ensures
            r.0 == self.0 ^ other.0,
            r.0 as nat == pxor(self.0 as nat, other.0 as nat),
    {
        proof {
            lemma_xor(self.0 as u128, other.0 as u128);
            let (a, b) = (self.0, other.0);
            assert((a ^ b) as u128 == (a as u128) ^ (b as u128)) by (bit_vector);
        }
        p32(self.0 ^ other.0)
    }

    /// Polynomial subtraction, which is the same as addition.
    pub fn naive_sub(self, other: p32) -> (r: p32)
        ensures
            r.0 == self.0 ^ other.0,
            r.0 as nat == pxor(self.0 as nat, other.0 as nat),
    {
        self.naive_add(other)
    }

    /// The full product, as the low and the high 32 digits.
    pub fn naive_widening_mul(self, other: p32) -> (r: (p32, p32))
        ensures
            r.0.0 as nat + r.1.0 as nat * exp2(32) == pmul(self.0 as nat, other.0 as nat),
    {
        let (lo, hi) = xmul32(self.0, other.0);
        (p32(lo), p32(hi))
    }

    /// The full product, as the low and the high 32 digits.
    pub fn widening_mul(self, other: p32) -> (r: (p32, p32))
        ensures
            r.0.0 as nat + r.1.0 as nat * exp2(32) == pmul(self.0 as nat, other.0 as nat),
    {
        self.naive_widening_mul(other)
    }

    /// The product truncated to 32 digits, and whether digits were lost.
    pub fn naive_overflowing_mul(self, other: p32) -> (r: (p32, bool))
        ensures
            r.0.0 as nat == pmul(self.0 as nat, other.0 as nat) % exp2(32),
            r.1 == (pmul(self.0 as nat, other.0 as nat) >= exp2(32)),
    {
        let (lo, hi) = xmul32(self.0, other.0);
        proof {
            lemma_exp2_values();
            lemma_split(lo as nat, hi as nat, 32, pmul(self.0 as nat, other.0 as nat));
        }
        (p32(lo), hi != 0)
    }

    /// The product truncated to 32 digits, and whether digits were lost.
    pub fn overflowing_mul(self, other: p32) -> (r: (p32, bool))
        ensures
            r.0.0 as nat == pmul(self.0 as nat, other.0 as nat) % exp2(32),
            r.1 == (pmul(self.0 as nat, other.0 as nat) >= exp2(32)),
    {
        self.naive_overflowing_mul(other)
    }

    /// The product truncated to 32 digits.
    pub fn naive_wrapping_mul(self, other: p32) -> (r: p32)
        ensures
            r.0 as nat == pmul(self.0 as nat, other.0 as nat) % exp2(32),
    {
        self.naive_overflowing_mul(other).0
    }

    /// The product truncated to 32 digits.
    pub fn wrapping_mul(self, other: p32) -> (r: p32)
        ensures
            r.0 as nat == pmul(self.0 as nat, other.0 as nat) % exp2(32),
    {
        self.naive_wrapping_mul(other)
    }

    /// The product, or `None` if it does not fit in 32 digits.
    pub fn naive_checked_mul(self, other: p32) -> (r: Option<p32>)
        ensures
            r is Some <==> pmul(self.0 as nat, other.0 as nat) < exp2(32),
            r matches Some(x) ==> x.0 as nat == pmul(self.0 as nat, other.0 as nat),
    {
        let (lo, overflow) = self.naive_overflowing_mul(other);
        proof {
            lemma_small(pmul(self.0 as nat, other.0 as nat), 32);
        }
        if overflow {
            None
        } else {
            Some(lo)
        }
    }

    /// The product, or `None` if it does not fit in 32 digits.
    pub fn checked_mul(self, other: p32) -> (r: Option<p32>)
        ensures
            r is Some <==> pmul(self.0 as nat, other.0 as nat) < exp2(32),
            r matches Some(x) ==> x.0 as nat == pmul(self.0 as nat, other.0 as nat),
    {
        self.naive_checked_mul(other)
    }

    /// The product; it must fit in 32 digits.
    pub fn naive_mul(self, other: p32) -> (r: p32)
        requires
            pmul(self.0 as nat, other.0 as nat) < exp2(32),
        ensures
            r.0 as nat == pmul(self.0 as nat, other.0 as nat),
    {
        let (lo, _) = self.naive_overflowing_mul(other);
        proof {
            lemma_small(pmul(self.0 as nat, other.0 as nat), 32);
        }
        lo
    }

    /// The quotient of polynomial division.
    pub fn naive_div(self, other: p32) -> (r: p32)
        requires
            other.0 != 0,
        ensures
            r.0 as nat == pdiv(self.0 as nat, other.0 as nat),
    {
        let (q, _) = pdivmod_u128(self.0 as u128, other.0 as u128);
        proof {
            lemma_exp2_values();
            lemma_pdiv_le(self.0 as nat, other.0 as nat, 32);
        }
        p32(q as u32)
    }

    /// The remainder of polynomial division.
    pub fn naive_rem(self, other: p32) -> (r: p32)
        requires
            other.0 != 0,
        ensures
            r.0 as nat == pmod(self.0 as nat, other.0 as nat),
    {
        let (_, rem) = pdivmod_u128(self.0 as u128, other.0 as u128);
        proof {
            lemma_exp2_values();
            lemma_pdiv_le(self.0 as nat, other.0 as nat, 32);
        }
        p32(rem as u32)
    }

    /// The quotient, or `None` when dividing by zero.
    pub fn checked_div(self, other: p32) -> (r: Option<p32>)
        ensures
            r is Some <==> other.0 != 0,
            r matches Some(x) ==> x.0 as nat == pdiv(self.0 as nat, other.0 as nat),
    {
        if other.0 == 0 {
            None
        } else {
            Some(self.naive_div(other))
        }
    }

    /// The remainder, or `None` when dividing by zero.
    pub fn checked_rem(self, other: p32) -> (r: Option<p32>)
        ensures
            r is Some <==> other.0 != 0,
            r matches Some(x) ==> x.0 as nat == pmod(self.0 as nat, other.0 as nat),
    {
        if other.0 == 0 {
            None
        } else {
            Some(self.naive_rem(other))
        }
    }

    /// `self` raised to the power `exp`, truncated to 32 digits.
    pub fn naive_wrapping_pow(self, exp: u32) -> (r: p32)
        ensures
            r.0 as nat == powmod(self.0 as nat, exp as nat, exp2(32)),
    {
        proof {
            lemma_exp2_values();
            lemma_exp2_pos(32);
            lemma_bitlen_exact(exp2(32), 32 + 1);
        }
        let r = powmod_u128(self.0 as u128, exp as u128, 0x1_0000_0000, 32);
        p32(r as u32)
    }

    /// `self` raised to the power `exp`, truncated to 32 digits.
    pub fn wrapping_pow(self, exp: u32) -> (r: p32)
        ensures
            r.0 as nat == powmod(self.0 as nat, exp as nat, exp2(32)),
    {
        self.naive_wrapping_pow(exp)
    }
}

impl core::ops::Add for p32 {
    type Output = p32;

    fn add(self, other: p32) -> (r: p32) {
        self.naive_add(other)
    }
}

impl vstd::std_specs::ops::AddSpecImpl for p32 {
    open spec fn obeys_add_spec() -> bool {
        true
    }

    open spec fn add_req(self, other: p32) -> bool {
        true
    }

    open spec fn add_spec(self, other: p32) -> p32 {
        p32(self.0 ^ other.0)
    }
}

impl core::ops::Sub for p32 {
    type Output = p32;

    fn sub(self, other: p32) -> (r: p32) {
        self.naive_sub(other)
    }
}

impl vstd::std_specs::ops::SubSpecImpl for p32 {
    open spec fn obeys_sub_spec() -> bool {
        true
    }

    open spec fn sub_req(self, other: p32) -> bool {
        true
    }

    open spec fn sub_spec(self, other: p32) -> p32 {
        p32(self.0 ^ other.0)
    }
}

impl core::ops::Mul for p32 {
    type Output = p32;

    fn mul(self, other: p32) -> (r: p32) {
        self.naive_mul(other)
    }
}

impl vstd::std_specs::ops::MulSpecImpl for p32 {
    open spec fn obeys_mul_spec() -> bool {
        true
    }

    open spec fn mul_req(self, other: p32) -> bool {
        pmul(self.0 as nat, other.0 as nat) < exp2(32)
    }

    open spec fn mul_spec(self, other: p32) -> p32 {
        p32(pmul(self.0 as nat, other.0 as nat) as u32)
    }
}

impl core::ops::Div for p32 {
    type Output = p32;

    fn div(self, other: p32) -> (r: p32) {
        self.naive_div(other)
    }
}

impl vstd::std_specs::ops::DivSpecImpl for p32 {
    open spec fn obeys_div_spec() -> bool {
        true
    }

    open spec fn div_req(self, other: p32) -> bool {
        other.0 != 0
    }

    open spec fn div_spec(self, other: p32) -> p32 {
        p32(pdiv(self.0 as nat, other.0 as nat) as u32)
    }
}

impl core::ops::Rem for p32 {
    type Output = p32;

    fn rem(self, other: p32) -> (r: p32) {
        self.naive_rem(other)
    }
}

impl vstd::std_specs::ops::RemSpecImpl for p32 {
    open spec fn obeys_rem_spec() -> bool {
        true
    }

    open spec fn rem_req(self, other: p32) -> bool {
        other.0 != 0
    }

    open spec fn rem_spec(self, other: p32) -> p32 {
        p32(pmod(self.0 as nat, other.0 as nat) as u32)
    }
}

/// The ring laws of `p32`: `a + b == b + a`, `a + (b + c) == (a + b) + c`,
/// `a + 0 == a`, `(a + b) - b == a`, `a * b == b * a`,
/// `a * (b * c) == (a * b) * c`, `a * 1 == a`, `a * (b + c) == a * b + a * c`,
/// over the polynomials the values hold.
pub proof fn lemma_p32_ring(a: p32, b: p32, c: p32)
    ensures
        pxor(a.0 as nat, b.0 as nat) == pxor(b.0 as nat, a.0 as nat),
        pxor(a.0 as nat, pxor(b.0 as nat, c.0 as nat)) == pxor(pxor(a.0 as nat, b.0 as nat), c.0 as nat),
        pxor(a.0 as nat, 0) == a.0,
        pxor(pxor(a.0 as nat, b.0 as nat), b.0 as nat) == a.0,
        pmul(a.0 as nat, b.0 as nat) == pmul(b.0 as nat, a.0 as nat),
        pmul(a.0 as nat, pmul(b.0 as nat, c.0 as nat)) == pmul(pmul(a.0 as nat, b.0 as nat), c.0 as nat),
        pmul(a.0 as nat, 1) == a.0,
        pmul(a.0 as nat, pxor(b.0 as nat, c.0 as nat))
            == pxor(pmul(a.0 as nat, b.0 as nat), pmul(a.0 as nat, c.0 as nat)),
{
    lemma_ring_laws(a.0 as nat, b.0 as nat, c.0 as nat);
}

/// Division in `p32`: `(a / b) * b + a % b == a` with `a % b` shorter than
/// `b`, and `(a * b) / b == a`, `(a * b) % b == 0`, for every non-zero `b`.
pub proof fn lemma_p32_div(a: p32, b: p32)
    requires
        b.0 != 0,
    ensures
        pxor(pmul(pdiv(a.0 as nat, b.0 as nat), b.0 as nat), pmod(a.0 as nat, b.0 as nat)) == a.0,
        bitlen(pmod(a.0 as nat, b.0 as nat)) < bitlen(b.0 as nat),
        pdiv(pmul(a.0 as nat, b.0 as nat), b.0 as nat) == a.0,
        pmod(pmul(a.0 as nat, b.0 as nat), b.0 as nat) == 0,
{
    lemma_div_laws(a.0 as nat, b.0 as nat);
}

/// A binary polynomial of at most 64 digits.
#[derive(Clone, Copy, Debug, PartialEq, Eq, Structural)]
pub struct p64(pub u64);

impl p64 {
    /// The number of digits of the type.
    pub const WIDTH: usize = 64;

    pub fn new(x: u64) -> (r: p64)
        ensures
            r.0 == x,
    {
        p64(x)
    }

    pub fn get(self) -> (r: u64)
        ensures
            r == self.0,
    {
        self.0
    }

    /// Polynomial addition, the exclusive or of the digits.
    pub fn naive_add(self, other: p64) -> (r: p64)
        ensures
            r.0 == self.0 ^ other.0,
            r.0 as nat == pxor(self.0 as nat, other.0 as nat),
    {
        proof {
            lemma_xor(self.0 as u128, other.0 as u128);
            let (a, b) = (self.0, other.0);
            assert((a ^ b) as u128 == (a as u128) ^ (b as u128)) by (bit_vector);
        }
        p64(self.0 ^ other.0)
    }

    /// Polynomial subtraction, which is the same as addition.
    pub fn naive_sub(self, other: p64) -> (r: p64)
        ensures
            r.0 == self.0 ^ other.0,
            r.0 as nat == pxor(self.0 as nat, other.0 as nat),
    {
        self.naive_add(other)
    }

    /// The full product, as the low and the high 64 digits.
    pub fn naive_widening_mul(self, other: p64) -> (r: (p64, p64))
        ensures
            r.0.0 as nat + r.1.0 as nat * exp2(64) == pmul(self.0 as nat, other.0 as nat),
    {
        let (lo, hi) = xmul64(self.0, other.0);
        (p64(lo), p64(hi))
    }

    /// The full product, as the low and the high 64 digits.
    pub fn widening_mul(self, other: p64) -> (r: (p64, p64))
        ensures
            r.0.0 as nat + r.1.0 as nat * exp2(64) == pmul(self.0 as nat, other.0 as nat),
    {
        self.naive_widening_mul(other)
    }

    /// The product truncated to 64 digits, and whether digits were lost.
    pub fn naive_overflowing_mul(self, other: p64) -> (r: (p64, bool))
        ensures
            r.0.0 as nat == pmul(self.0 as nat, other.0 as nat) % exp2(64),
            r.1 == (pmul(self.0 as nat, other.0 as nat) >= exp2(64)),
    {
        let (lo, hi) = xmul64(self.0, other.0);
        proof {
            lemma_exp2_values();
            lemma_split(lo as nat, hi as nat, 64, pmul(self.0 as nat, other.0 as nat));
        }
        (p64(lo), hi != 0)
    }

    /// The product truncated to 64 digits, and whether digits were lost.
    pub fn overflowing_mul(self, other: p64) -> (r: (p64, bool))
        ensures
            r.0.0 as nat == pmul(self.0 as nat, other.0 as nat) % exp2(64),
            r.1 == (pmul(self.0 as nat, other.0 as nat) >= exp2(64)),
    {
        self.naive_overflowing_mul(other)
    }

    /// The product truncated to 64 digits.
    pub fn naive_wrapping_mul(self, other: p64) -> (r: p64)
        ensures
            r.0 as nat == pmul(self.0 as nat, other.0 as nat) % exp2(64),
    {
        self.naive_overflowing_mul(other).0
    }

    /// The product truncated to 64 digits.
    pub fn wrapping_mul(self, other: p64) -> (r: p64)
        ensures
            r.0 as nat == pmul(self.0 as nat, other.0 as nat) % exp2(64),
    {
        self.naive_wrapping_mul(other)
    }

    /// The product, or `None` if it does not fit in 64 digits.
    pub fn naive_checked_mul(self, other: p64) -> (r: Option<p64>)
        ensures
            r is Some <==> pmul(self.0 as nat, other.0 as nat) < exp2(64),
            r matches Some(x) ==> x.0 as nat == pmul(self.0 as nat, other.0 as nat),
    {
        let (lo, overflow) = self.naive_overflowing_mul(other);
        proof {
            lemma_small(pmul(self.0 as nat, other.0 as nat), 64);
        }
        if overflow {
            None
        } else {
            Some(lo)
        }
    }

    /// The product, or `None` if it does not fit in 64 digits.
    pub fn checked_mul(self, other: p64) -> (r: Option<p64>)
        ensures
            r is Some <==> pmul(self.0 as nat, other.0 as nat) < exp2(64),
            r matches Some(x) ==> x.0 as nat == pmul(self.0 as nat, other.0 as nat),
    {
        self.naive_checked_mul(other)
    }

    /// The product; it must fit in 64 digits.
    pub fn naive_mul(self, other: p64) -> (r: p64)
        requires
            pmul(self.0 as nat, other.0 as nat) < exp2(64),
        ensures
            r.0 as nat == pmul(self.0 as nat, other.0 as nat),
    {
        let (lo, _) = self.naive_overflowing_mul(other);
        proof {
            lemma_small(pmul(self.0 as nat, other.0 as nat), 64);
        }
        lo
    }

    /// The quotient of polynomial division.
    pub fn naive_div(self, other: p64) -> (r: p64)
        requires
            other.0 != 0,
        ensures
            r.0 as nat == pdiv(self.0 as nat, other.0 as nat),
    {
        let (q, _) = pdivmod_u128(self.0 as u128, other.0 as u128);
        proof {
            lemma_exp2_values();
            lemma_pdiv_le(self.0 as nat, other.0 as nat, 64);
        }
        p64(q as u64)
    }

    /// The remainder of polynomial division.
    pub fn naive_rem(self, other: p64) -> (r: p64)
        requires
            other.0 != 0,
        ensures
            r.0 as nat == pmod(self.0 as nat, other.0 as nat),
    {
        let (_, rem) = pdivmod_u128(self.0 as u128, other.0 as u128);
        proof {
            lemma_exp2_values();
            lemma_pdiv_le(self.0 as nat, other.0 as nat, 64);
        }
        p64(rem as u64)
    }

    /// The quotient, or `None` when dividing by zero.
    pub fn checked_div(self, other: p64) -> (r: Option<p64>)
        ensures
            r is Some <==> other.0 != 0,
            r matches Some(x) ==> x.0 as nat == pdiv(self.0 as nat, other.0 as nat),
    {
        if other.0 == 0 {
            None
        } else {
            Some(self.naive_div(other))
        }
    }

    /// The remainder, or `None` when dividing by zero.
    pub fn checked_rem(self, other: p64) -> (r: Option<p64>)
        ensures
            r is Some <==> other.0 != 0,
            r matches Some(x) ==> x.0 as nat == pmod(self.0 as nat, other.0 as nat),
    {
        if other.0 == 0 {
            None
        } else {
            Some(self.naive_rem(other))
        }
    }

    /// `self` raised to the power `exp`, truncated to 64 digits.
    pub fn naive_wrapping_pow(self, exp: u32) -> (r: p64)
        ensures
            r.0 as nat == powmod(self.0 as nat, exp as nat, exp2(64)),
    {
        proof {
            lemma_exp2_values();
            lemma_exp2_pos(64);
            lemma_bitlen_exact(exp2(64), 64 + 1);
        }
        let r = powmod_u128(self.0 as u128, exp as u128, 0x1_0000_0000_0000_0000, 64);
        p64(r as u64)
    }

    /// `self` raised to the power `exp`, truncated to 64 digits.
    pub fn wrapping_pow(self, exp: u32) -> (r: p64)
        ensures
            r.0 as nat == powmod(self.0 as nat, exp as nat, exp2(64)),
    {
        self.naive_wrapping_pow(exp)
    }
}

impl core::ops::Add for p64 {
    type Output = p64;

    fn add(self, other: p64) -> (r: p64) {
        self.naive_add(other)
    }
}

impl vstd::std_specs::ops::AddSpecImpl for p64 {
    open spec fn obeys_add_spec() -> bool {
        true
    }

    open spec fn add_req(self, other: p64) -> bool {
        true
    }

    open spec fn add_spec(self, other: p64) -> p64 {
        p64(self.0 ^ other.0)
    }
}

impl core::ops::Sub for p64 {
    type Output = p64;

    fn sub(self, other: p64) -> (r: p64) {
        self.naive_sub(other)
    }
}

impl vstd::std_specs::ops::SubSpecImpl for p64 {
    open spec fn obeys_sub_spec() -> bool {
        true
    }

    open spec fn sub_req(self, other: p64) -> bool {
        true
    }

    open spec fn sub_spec(self, other: p64) -> p64 {
        p64(self.0 ^ other.0)
    }
}

impl core::ops::Mul for p64 {
    type Output = p64;

    fn mul(self, other: p64) -> (r: p64) {
        self.naive_mul(other)
    }
}

impl vstd::std_specs::ops::MulSpecImpl for p64 {
    open spec fn obeys_mul_spec() -> bool {
        true
    }

    open spec fn mul_req(self, other: p64) -> bool {
        pmul(self.0 as nat, other.0 as nat) < exp2(64)
    }

    open spec fn mul_spec(self, other: p64) -> p64 {
        p64(pmul(self.0 as nat, other.0 as nat) as u64)
    }
}

impl core::ops::Div for p64 {
    type Output = p64;

    fn div(self, other: p64) -> (r: p64) {
        self.naive_div(other)
    }
}

impl vstd::std_specs::ops::DivSpecImpl for p64 {
    open spec fn obeys_div_spec() -> bool {
        true
    }

    open spec fn div_req(self, other: p64) -> bool {
        other.0 != 0
    }

    open spec fn div_spec(self, other: p64) -> p64 {
        p64(pdiv(self.0 as nat, other.0 as nat) as u64)
    }
}

impl core::ops::Rem for p64 {
    type Output = p64;

    fn rem(self, other: p64) -> (r: p64) {
        self.naive_rem(other)
    }
}

impl vstd::std_specs::ops::RemSpecImpl for p64 {
    open spec fn obeys_rem_spec() -> bool {
        true
    }

    open spec fn rem_req(self, other: p64) -> bool {
        other.0 != 0
    }

    open spec fn rem_spec(self, other: p64) -> p64 {
        p64(pmod(self.0 as nat, other.0 as nat) as u64)
    }
}

/// The ring laws of `p64`: `a + b == b + a`, `a + (b + c) == (a + b) + c`,
/// `a + 0 == a`, `(a + b) - b == a`, `a * b == b * a`,
/// `a * (b * c) == (a * b) * c`, `a * 1 == a`, `a * (b + c) == a * b + a * c`,
/// over the polynomials the values hold.
pub proof fn lemma_p64_ring(a: p64, b: p64, c: p64)
    ensures
        pxor(a.0 as nat, b.0 as nat) == pxor(b.0 as nat, a.0 as nat),
        pxor(a.0 as nat, pxor(b.0 as nat, c.0 as nat)) == pxor(pxor(a.0 as nat, b.0 as nat), c.0 as nat),
        pxor(a.0 as nat, 0) == a.0,
        pxor(pxor(a.0 as nat, b.0 as nat), b.0 as nat) == a.0,
        pmul(a.0 as nat, b.0 as nat) == pmul(b.0 as nat, a.0 as nat),
        pmul(a.0 as nat, pmul(b.0 as nat, c.0 as nat)) == pmul(pmul(a.0 as nat, b.0 as nat), c.0 as nat),
        pmul(a.0 as nat, 1) == a.0,
        pmul(a.0 as nat, pxor(b.0 as nat, c.0 as nat))
            == pxor(pmul(a.0 as nat, b.0 as nat), pmul(a.0 as nat, c.0 as nat)),
{
    lemma_ring_laws(a.0 as nat, b.0 as nat, c.0 as nat);
}

/// Division in `p64`: `(a / b) * b + a % b == a` with `a % b` shorter than
/// `b`, and `(a * b) / b == a`, `(a * b) % b == 0`, for every non-zero `b`.
pub proof fn lemma_p64_div(a: p64, b: p64)
    requires
        b.0 != 0,
    ensures
        pxor(pmul(pdiv(a.0 as nat, b.0 as nat), b.0 as nat), pmod(a.0 as nat, b.0 as nat)) == a.0,
        bitlen(pmod(a.0 as nat, b.0 as nat)) < bitlen(b.0 as nat),
        pdiv(pmul(a.0 as nat, b.0 as nat), b.0 as nat) == a.0,
        pmod(pmul(a.0 as nat, b.0 as nat), b.0 as nat) == 0,
{
    lemma_div_laws(a.0 as nat, b.0 as nat);
}

/// A binary polynomial of at most 128 digits.
#[derive(Clone, Copy, Debug, PartialEq, Eq, Structural)]
pub struct p128(pub u128);

impl p128 {
    /// The number of digits of the type.
    pub const WIDTH: usize = 128;

    pub fn new(x: u128) -> (r: p128)
        ensures
            r.0 == x,
    {
        p128(x)
    }

    pub fn get(self) -> (r: u128)
        ensures
            r == self.0,
    {
        self.0
    }

    /// Polynomial addition, the exclusive or of the digits.
    pub fn naive_add(self, other: p128) -> (r: p128)
        ensures
            r.0 == self.0 ^ other.0,
            r.0 as nat == pxor(self.0 as nat, other.0 as nat),
    {
        proof {
            lemma_xor(self.0 as u128, other.0 as u128);
            let (a, b) = (self.0, other.0);
            assert((a ^ b) as u128 == (a as u128) ^ (b as u128)) by (bit_vector);
        }
        p128(self.0 ^ other.0)
    }

    /// Polynomial subtraction, which is the same as addition.
    pub fn naive_sub(self, other: p128) -> (r: p128)
        ensures
            r.0 == self.0 ^ other.0,
            r.0 as nat == pxor(self.0 as nat, other.0 as nat),
    {
        self.naive_add(other)
    }

    /// The full product, as the low and the high 128 digits.
    pub fn naive_widening_mul(self, other: p128) -> (r: (p128, p128))
        ensures
            r.0.0 as nat + r.1.0 as nat * exp2(128) == pmul(self.0 as nat, other.0 as nat),
    {
        let (lo, hi) = xmul128(self.0, other.0);
        (p128(lo), p128(hi))
    }

    /// The full product, as the low and the high 128 digits.
    pub fn widening_mul(self, other: p128) -> (r: (p128, p128))
        ensures
            r.0.0 as nat + r.1.0 as nat * exp2(128) == pmul(self.0 as nat, other.0 as nat),
    {
        self.naive_widening_mul(other)
    }

    /// The product truncated to 128 digits, and whether digits were lost.
    pub fn naive_overflowing_mul(self, other: p128) -> (r: (p128, bool))
        ensures
            r.0.0 as nat == pmul(self.0 as nat, other.0 as nat) % exp2(128),
            r.1 == (pmul(self.0 as nat, other.0 as nat) >= exp2(128)),
    {
        let (lo, hi) = xmul128(self.0, other.0);
        proof {
            lemma_exp2_values();
            lemma_split(lo as nat, hi as nat, 128, pmul(self.0 as nat, other.0 as nat));
        }
        (p128(lo), hi != 0)
    }

    /// The product truncated to 128 digits, and whether digits were lost.
    pub fn overflowing_mul(self, other: p128) -> (r: (p128, bool))
        ensures
            r.0.0 as nat == pmul(self.0 as nat, other.0 as nat) % exp2(128),
            r.1 == (pmul(self.0 as nat, other.0 as nat) >= exp2(128)),
    {
        self.naive_overflowing_mul(other)
    }

    /// The product truncated to 128 digits.
    pub fn naive_wrapping_mul(self, other: p128) -> (r: p128)
        ensures
            r.0 as nat == pmul(self.0 as nat, other.0 as nat) % exp2(128),
    {
        self.naive_overflowing_mul(other).0
    }

    /// The product truncated to 128 digits.
    pub fn wrapping_mul(self, other: p128) -> (r: p128)
        ensures
            r.0 as nat == pmul(self.0 as nat, other.0 as nat) % exp2(128),
    {
        self.naive_wrapping_mul(other)
    }

    /// The product, or `None` if it does not fit in 128 digits.
    pub fn naive_checked_mul(self, other: p128) -> (r: Option<p128>)
        ensures
            r is Some <==> pmul(self.0 as nat, other.0 as nat) < exp2(128),
            r matches Some(x) ==> x.0 as nat == pmul(self.0 as nat, other.0 as nat),
    {
        let (lo, overflow) = self.naive_overflowing_mul(other);
        proof {
            lemma_small(pmul(self.0 as nat, other.0 as nat), 128);
        }
        if overflow {
            None
        } else {
            Some(lo)
        }
    }

    /// The product, or `None` if it does not fit in 128 digits.
    pub fn checked_mul(self, other: p128) -> (r: Option<p128>)
        ensures
            r is Some <==> pmul(self.0 as nat, other.0 as nat) < exp2(128),
            r matches Some(x) ==> x.0 as nat == pmul(self.0 as nat, other.0 as nat),
    {
        self.naive_checked_mul(other)
    }

    /// The product; it must fit in 128 digits.
    pub fn naive_mul(self, other: p128) -> (r: p128)
        requires
            pmul(self.0 as nat, other.0 as nat) < exp2(128),
        ensures
            r.0 as nat == pmul(self.0 as nat, other.0 as nat),
    {
        let (lo, _) = self.naive_overflowing_mul(other);
        proof {
            lemma_small(pmul(self.0 as nat, other.0 as nat), 128);
        }
        lo
    }

    /// The quotient of polynomial division.
    pub fn naive_div(self, other: p128) -> (r: p128)
        requires
            other.0 != 0,
        ensures
            r.0 as nat == pdiv(self.0 as nat, other.0 as nat),
    {
        let (q, _) = pdivmod_u128(self.0 as u128, other.0 as u128);
        proof {
            lemma_exp2_values();
            lemma_pdiv_le(self.0 as nat, other.0 as nat, 128);
        }
        p128(q as u128)
    }

    /// The remainder of polynomial division.
    pub fn naive_rem(self, other: p128) -> (r: p128)
        requires
            other.0 != 0,
        ensures
            r.0 as nat == pmod(self.0 as nat, other.0 as nat),
    {
        let (_, rem) = pdivmod_u128(self.0 as u128, other.0 as u128);
        proof {
            lemma_exp2_values();
            lemma_pdiv_le(self.0 as nat, other.0 as nat, 128);
        }
        p128(rem as u128)
    }

    /// The quotient, or `None` when dividing by zero.
    pub fn checked_div(self, other: p128) -> (r: Option<p128>)
        ensures
            r is Some <==> other.0 != 0,
            r matches Some(x) ==> x.0 as nat == pdiv(self.0 as nat, other.0 as nat),
    {
        if other.0 == 0 {
            None
        } else {
            Some(self.naive_div(other))
        }
    }

    /// The remainder, or `None` when dividing by zero.
    pub fn checked_rem(self, other: p128) -> (r: Option<p128>)
        ensures
            r is Some <==> other.0 != 0,
            r matches Some(x) ==> x.0 as nat == pmod(self.0 as nat, other.0 as nat),
    {
        if other.0 == 0 {
            None
        } else {
            Some(self.naive_rem(other))
        }
    }
}

impl core::ops::Add for p128 {
    type Output = p128;

    fn add(self, other: p128) -> (r: p128) {
        self.naive_add(other)
    }
}

impl vstd::std_specs::ops::AddSpecImpl for p128 {
    open spec fn obeys_add_spec() -> bool {
        true
    }

    open spec fn add_req(self, other: p128) -> bool {
        true
    }

    open spec fn add_spec(self, other: p128) -> p128 {
        p128(self.0 ^ other.0)
    }
}

impl core::ops::Sub for p128 {
    type Output = p128;

    fn sub(self, other: p128) -> (r: p128) {
        self.naive_sub(other)
    }
}

impl vstd::std_specs::ops::SubSpecImpl for p128 {
    open spec fn obeys_sub_spec() -> bool {
        true
    }

    open spec fn sub_req(self, other: p128) -> bool {
        true
    }

    open spec fn sub_spec(self, other: p128) -> p128 {
        p128(self.0 ^ other.0)
    }
}

impl core::ops::Mul for p128 {
    type Output = p128;

    fn mul(self, other: p128) -> (r: p128) {
        self.naive_mul(other)
    }
}

impl vstd::std_specs::ops::MulSpecImpl for p128 {
    open spec fn obeys_mul_spec() -> bool {
        true
    }

    open spec fn mul_req(self, other: p128) -> bool {
        pmul(self.0 as nat, other.0 as nat) < exp2(128)
    }

    open spec fn mul_spec(self, other: p128) -> p128 {
        p128(pmul(self.0 as nat, other.0 as nat) as u128)
    }
}

impl core::ops::Div for p128 {
    type Output = p128;

    fn div(self, other: p128) -> (r: p128) {
        self.naive_div(other)
    }
}

impl vstd::std_specs::ops::DivSpecImpl for p128 {
    open spec fn obeys_div_spec() -> bool {
        true
    }

    open spec fn div_req(self, other: p128) -> bool {
        other.0 != 0
    }

    open spec fn div_spec(self, other: p128) -> p128 {
        p128(pdiv(self.0 as nat, other.0 as nat) as u128)
    }
}

impl core::ops::Rem for p128 {
    type Output = p128;

    fn rem(self, other: p128) -> (r: p128) {
        self.naive_rem(other)
    }
}

impl vstd::std_specs::ops::RemSpecImpl for p128 {
    open spec fn obeys_rem_spec() -> bool {
        true
    }

    open spec fn rem_req(self, other: p128) -> bool {
        other.0 != 0
    }

    open spec fn rem_spec(self, other: p128) -> p128 {
        p128(pmod(self.0 as nat, other.0 as nat) as u128)
    }
}

/// The ring laws of `p128`: `a + b == b + a`, `a + (b + c) == (a + b) + c`,
/// `a + 0 == a`, `(a + b) - b == a`, `a * b == b * a`,
/// `a * (b * c) == (a * b) * c`, `a * 1 == a`, `a * (b + c) == a * b + a * c`,
/// over the polynomials the values hold.
pub proof fn lemma_p128_ring(a: p128, b: p128, c: p128)
    ensures
        pxor(a.0 as nat, b.0 as nat) == pxor(b.0 as nat, a.0 as nat),
        pxor(a.0 as nat, pxor(b.0 as nat, c.0 as nat)) == pxor(pxor(a.0 as nat, b.0 as nat), c.0 as nat),
        pxor(a.0 as nat, 0) == a.0,
        pxor(pxor(a.0 as nat, b.0 as nat), b.0 as nat) == a.0,
        pmul(a.0 as nat, b.0 as nat) == pmul(b.0 as nat, a.0 as nat),
        pmul(a.0 as nat, pmul(b.0 as nat, c.0 as nat)) == pmul(pmul(a.0 as nat, b.0 as nat), c.0 as nat),
        pmul(a.0 as nat, 1) == a.0,
        pmul(a.0 as nat, pxor(b.0 as nat, c.0 as nat))
            == pxor(pmul(a.0 as nat, b.0 as nat), pmul(a.0 as nat, c.0 as nat)),
{
    lemma_ring_laws(a.0 as nat, b.0 as nat, c.0 as nat);
}

/// Division in `p128`: `(a / b) * b + a % b == a` with `a % b` shorter than
/// `b`, and `(a * b) / b == a`, `(a * b) % b == 0`, for every non-zero `b`.
pub proof fn lemma_p128_div(a: p128, b: p128)
    requires
        b.0 != 0,
    ensures
        pxor(pmul(pdiv(a.0 as nat, b.0 as nat), b.0 as nat), pmod(a.0 as nat, b.0 as nat)) == a.0,
        bitlen(pmod(a.0 as nat, b.0 as nat)) < bitlen(b.0 as nat),
        pdiv(pmul(a.0 as nat, b.0 as nat), b.0 as nat) == a.0,
        pmod(pmul(a.0 as nat, b.0 as nat), b.0 as nat) == 0,
{
    lemma_div_laws(a.0 as nat, b.0 as nat);
}

/// A `u8` as a `p8`, digit for digit.
impl From<u8> for p8 {
    fn from(x: u8) -> (r: p8) {
        p8(x)
    }
}

impl vstd::std_specs::convert::FromSpecImpl<u8> for p8 {
    open spec fn obeys_from_spec() -> bool {
        true
    }

    open spec fn from_spec(x: u8) -> p8 {
        p8(x)
    }
}

/// The digits of a `p8` as a `u8`.
impl From<p8> for u8 {
    fn from(x: p8) -> (r: u8) {
        x.0
    }
}

impl vstd::std_specs::convert::FromSpecImpl<p8> for u8 {
    open spec fn obeys_from_spec() -> bool {
        true
    }

    open spec fn from_spec(x: p8) -> u8 {
        x.0
    }
}

/// A `u16` as a `p16`, digit for digit.
impl From<u16> for p16 {
    fn from(x: u16) -> (r: p16) {
        p16(x)
    }
}

impl vstd::std_specs::convert::FromSpecImpl<u16> for p16 {
    open spec fn obeys_from_spec() -> bool {
        true
    }

    open spec fn from_spec(x: u16) -> p16 {
        p16(x)
    }
}

/// The digits of a `p16` as a `u16`.
impl From<p16> for u16 {
    fn from(x: p16) -> (r: u16) {
        x.0
    }
}

impl vstd::std_specs::convert::FromSpecImpl<p16> for u16 {
    open spec fn obeys_from_spec() -> bool {
        true
    }

    open spec fn from_spec(x: p16) -> u16 {
        x.0
    }
}

/// A `p8` as a `p16`: the same polynomial.
impl From<p8> for p16 {
    fn from(x: p8) -> (r: p16) {
        p16(x.0 as u16)
    }
}

impl vstd::std_specs::convert::FromSpecImpl<p8> for p16 {
    open spec fn obeys_from_spec() -> bool {
        true
    }

    open spec fn from_spec(x: p8) -> p16 {
        p16(x.0 as u16)
    }
}

/// A `u32` as a `p32`, digit for digit.
impl From<u32> for p32 {
    fn from(x: u32) -> (r: p32) {
        p32(x)
    }
}

impl vstd::std_specs::convert::FromSpecImpl<u32> for p32 {
    open spec fn obeys_from_spec() -> bool {
        true
    }

    open spec fn from_spec(x: u32) -> p32 {
        p32(x)
    }
}

/// The digits of a `p32` as a `u32`.
impl From<p32> for u32 {
    fn from(x: p32) -> (r: u32) {
        x.0
    }
}

impl vstd::std_specs::convert::FromSpecImpl<p32> for u32 {
    open spec fn obeys_from_spec() -> bool {
        true
    }

    open spec fn from_spec(x: p32) -> u32 {
        x.0
    }
}

/// A `p8` as a `p32`: the same polynomial.
impl From<p8> for p32 {
    fn from(x: p8) -> (r: p32) {
        p32(x.0 as u32)
    }
}

impl vstd::std_specs::convert::FromSpecImpl<p8> for p32 {
    open spec fn obeys_from_spec() -> bool {
        true
    }

    open spec fn from_spec(x: p8) -> p32 {
        p32(x.0 as u32)
    }
}

/// A `p16` as a `p32`: the same polynomial.
impl From<p16> for p32 {
    fn from(x: p16) -> (r: p32) {
        p32(x.0 as u32)
    }
}

impl vstd::std_specs::convert::FromSpecImpl<p16> for p32 {
    open spec fn obeys_from_spec() -> bool {
        true
    }

    open spec fn from_spec(x: p16) -> p32 {
        p32(x.0 as u32)
    }
}

/// A `u64` as a `p64`, digit for digit.
impl From<u64> for p64 {
    fn from(x: u64) -> (r: p64) {
        p64(x)
    }
}

impl vstd::std_specs::convert::FromSpecImpl<u64> for p64 {
    open spec fn obeys_from_spec() -> bool {
        true
    }

    open spec fn from_spec(x: u64) -> p64 {
        p64(x)
    }
}

/// The digits of a `p64` as a `u64`.
impl From<p64> for u64 {
    fn from(x: p64) -> (r: u64) {
        x.0
    }
}

impl vstd::std_specs::convert::FromSpecImpl<p64> for u64 {
    open spec fn obeys_from_spec() -> bool {
        true
    }

    open spec fn from_spec(x: p64) -> u64 {
        x.0
    }
}

/// A `p8` as a `p64`: the same polynomial.
impl From<p8> for p64 {
    fn from(x: p8) -> (r: p64) {
        p64(x.0 as u64)
    }
}

impl vstd::std_specs::convert::FromSpecImpl<p8> for p64 {
    open spec fn obeys_from_spec() -> bool {
        true
    }

    open spec fn from_spec(x: p8) -> p64 {
        p64(x.0 as u64)
    }
}

/// A `p16` as a `p64`: the same polynomial.
impl From<p16> for p64 {
    fn from(x: p16) -> (r: p64) {
        p64(x.0 as u64)
    }
}

impl vstd::std_specs::convert::FromSpecImpl<p16> for p64 {
    open spec fn obeys_from_spec() -> bool {
        true
    }

    open spec fn from_spec(x: p16) -> p64 {
        p64(x.0 as u64)
    }
}

/// A `p32` as a `p64`: the same polynomial.
impl From<p32> for p64 {
    fn from(x: p32) -> (r: p64) {
        p64(x.0 as u64)
    }
}

impl vstd::std_specs::convert::FromSpecImpl<p32> for p64 {
    open spec fn obeys_from_spec() -> bool {
        true
    }

    open spec fn from_spec(x: p32) -> p64 {
        p64(x.0 as u64)
    }
}

/// A `u128` as a `p128`, digit for digit.
impl From<u128> for p128 {
    fn from(x: u128) -> (r: p128) {
        p128(x)
    }
}

impl vstd::std_specs::convert::FromSpecImpl<u128> for p128 {
    open spec fn obeys_from_spec() -> bool {
        true
    }

    open spec fn from_spec(x: u128) -> p128 {
        p128(x)
    }
}

/// The digits of a `p128` as a `u128`.
impl From<p128> for u128 {
    fn from(x: p128) -> (r: u128) {
        x.0
    }
}

impl vstd::std_specs::convert::FromSpecImpl<p128> for u128 {
    open spec fn obeys_from_spec() -> bool {
        true
    }

    open spec fn from_spec(x: p128) -> u128 {
        x.0
    }
}

/// A `p8` as a `p128`: the same polynomial.
impl From<p8> for p128 {
    fn from(x: p8) -> (r: p128) {
        p128(x.0 as u128)
    }
}

impl vstd::std_specs::convert::FromSpecImpl<p8> for p128 {
    open spec fn obeys_from_spec() -> bool {
        true
    }

    open spec fn from_spec(x: p8) -> p128 {
        p128(x.0 as u128)
    }
}

/// A `p16` as a `p128`: the same polynomial.
impl From<p16> for p128 {
    fn from(x: p16) -> (r: p128) {
        p128(x.0 as u128)
    }
}

impl vstd::std_specs::convert::FromSpecImpl<p16> for p128 {
    open spec fn obeys_from_spec() -> bool {
        true
    }

    open spec fn from_spec(x: p16) -> p128 {
        p128(x.0 as u128)
    }
}

/// A `p32` as a `p128`: the same polynomial.
impl From<p32> for p128 {
    fn from(x: p32) -> (r: p128) {
        p128(x.0 as u128)
    }
}

impl vstd::std_specs::convert::FromSpecImpl<p32> for p128 {
    open spec fn obeys_from_spec() -> bool {
        true
    }

    open spec fn from_spec(x: p32) -> p128 {
        p128(x.0 as u128)
    }
}

/// A `p64` as a `p128`: the same polynomial.
impl From<p64> for p128 {
    fn from(x: p64) -> (r: p128) {
        p128(x.0 as u128)
    }
}

impl vstd::std_specs::convert::FromSpecImpl<p64> for p128 {
    open spec fn obeys_from_spec() -> bool {
        true
    }

    open spec fn from_spec(x: p64) -> p128 {
        p128(x.0 as u128)
    }
}

} // verus!
