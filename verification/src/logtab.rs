//! Multiplication in a field by tables. With log and antilog tables: every
//! non-zero element is a power `g^k` of the generator, so a product is the
//! power whose exponent is the sum of the factors' exponents. With a
//! remainder table: the carry-less product is reduced a byte (or, with the
//! small table, four digits) at a time.

use vstd::prelude::*;
use crate::poly::{
    exp2, bitlen, pmul, pmod, mulmod, powmod, lemma_exp2_pos, lemma_exp2_mono, lemma_pmod_small,
    lemma_pmul_zero, lemma_mulmod_comm, lemma_powmod_add, lemma_bitlen_bound,
};
use crate::arith::mulmod_u128;
use crate::bits::{lemma_shl, lemma_exp2_values};
use crate::cyclic::{is_power, lemma_generator_covers};
use crate::crc::{
    crc_byte, crc_nibble, crc_params_ok, crc_table_entries, crc_table_step, crc_small_table_entries,
    crc_nibble_step,
};

verus! {

/// `g` generates the non-zero elements of the field of `w`-digit elements
/// modulo `m`: `g^n == 1` for `n == 2^w - 1`, and no smaller positive power
/// of `g` is one.
pub open spec fn generates(g: nat, m: nat, w: nat) -> bool {
    &&& powmod(g, (exp2(w) - 1) as nat, m) == 1
    &&& forall|k: nat| 0 < k < exp2(w) - 1 ==> #[trigger] powmod(g, k, m) != 1
}

/// The log and antilog tables of a field of at most 16 digits.
pub struct LogTables {
    exp: Vec<u128>,
    log: Vec<usize>,
    poly: u128,
    width: u32,
    generator: u128,
}

impl LogTables {
    #[verifier::type_invariant]
    spec fn inv(self) -> bool {
        let n = (exp2(self.width as nat) - 1) as nat;
        &&& bitlen(self.poly as nat) == self.width + 1
        &&& 1 <= self.width <= 16
        &&& generates(self.generator as nat, self.poly as nat, self.width as nat)
        &&& self.exp@.len() == n
        &&& self.log@.len() == exp2(self.width as nat)
        &&& forall|i: int| 0 <= i < n ==> (#[trigger] self.exp@[i]) as nat
            == powmod(self.generator as nat, i as nat, self.poly as nat)
        &&& forall|x: int| 0 < x < exp2(self.width as nat) ==> (#[trigger] self.log@[x]) < n
            && self.exp@[self.log@[x] as int] as nat == x
    }

    /// The defining polynomial.
    pub closed spec fn modulus(self) -> nat {
        self.poly as nat
    }

    /// The number of digits of an element.
    pub closed spec fn spec_width(self) -> nat {
        self.width as nat
    }

    /// The generator whose powers the tables list.
    pub closed spec fn spec_generator(self) -> nat {
        self.generator as nat
    }

    /// The tables for the field defined by `poly` (of `w + 1` digits,
    /// `w <= 16`) with generator `g`.
    pub fn new(poly: u128, w: u32, g: u128) -> (t: LogTables)
        requires
            bitlen(poly as nat) == w + 1,
            1 <= w <= 16,
            (g as nat) < exp2(w as nat),
            generates(g as nat, poly as nat, w as nat),
        ensures
            t.modulus() == poly,
            t.spec_width() == w,
            t.spec_generator() == g,
    {
        let ghost m = poly as nat;
        proof {
            lemma_exp2_values();
            lemma_exp2_mono(w as nat, 16);
            lemma_exp2_mono(1, w as nat);
            assert(exp2(1) == 2 * exp2(0));
            lemma_exp2_mono(16, 128);
            lemma_shl(1, w);
            lemma_exp2_pos(w as nat);
            crate::field::lemma_pmod_one(m, w as nat);
            lemma_bitlen_bound(m);
        }
        let size: usize = (1u128 << w) as usize;
        let n: usize = size - 1;
        let mut exp: Vec<u128> = Vec::new();
        let mut x: u128 = 1;
        let mut i: usize = 0;
        while i < n
            invariant
                bitlen(poly as nat) == w + 1,
                1 <= w <= 16,
                m == poly as nat,
                (g as nat) < exp2(w as nat),
                n == exp2(w as nat) - 1,
                i <= n,
                exp@.len() == i,
                x as nat == powmod(g as nat, i as nat, m),
                (x as nat) < exp2(w as nat),
                forall|j: int| 0 <= j < i ==> (#[trigger] exp@[j]) as nat == powmod(g as nat, j as nat, m)
                    && (exp@[j] as nat) < exp2(w as nat),
            decreases n - i,
        {
            exp.push(x);
            proof {
                lemma_bitlen_bound(m);
                lemma_mulmod_comm(x as nat, g as nat, m);
                assert(powmod(g as nat, (i + 1) as nat, m) == mulmod(g as nat, powmod(g as nat, i as nat, m), m));
            }
            x = mulmod_u128(x, g, poly, w);
            i = i + 1;
        }
        let mut log: Vec<usize> = Vec::new();
        let mut k: usize = 0;
        while k < size
            invariant
                k <= size,
                log@.len() == k,
                n == size - 1,
                size >= 2,
                forall|j: int| 0 <= j < k ==> (#[trigger] log@[j]) < n,
            decreases size - k,
        {
            log.push(0);
            k = k + 1;
        }
        let mut i: usize = 0;
        while i < n
            invariant
                size == exp2(w as nat),
                n == size - 1,
                i <= n,
                exp@.len() == n,
                log@.len() == size,
                forall|j: int| 0 <= j < n ==> (#[trigger] exp@[j]) as nat == powmod(g as nat, j as nat, m)
                    && (exp@[j] as nat) < exp2(w as nat),
                forall|y: int| 0 <= y < size ==> (#[trigger] log@[y]) < n,
                forall|j: int| 0 <= j < i ==> #[trigger] exp@[log@[exp@[j] as int] as int] == exp@[j],
            decreases n - i,
        {
            let e: u128 = exp[i];
            log.set(e as usize, i);
            i = i + 1;
        }
        proof {
            lemma_generator_covers(g as nat, m, w as nat);
            assert forall|y: int| 0 < y < exp2(w as nat) implies (#[trigger] log@[y]) < n
                && exp@[log@[y] as int] as nat == y by {
                assert(is_power(g as nat, y as nat, m, n as nat));
                let k = choose|k: nat| k < n && #[trigger] powmod(g as nat, k, m) == y as nat;
                assert(exp@[k as int] as nat == y);
                assert(exp@[log@[exp@[k as int] as int] as int] == exp@[k as int]);
            }
        }
        LogTables { exp, log, poly, width: w, generator: g }
    }

    /// The tables of `gf16`: `0x13` with generator `2`.
    pub fn for_gf16() -> (t: LogTables)
        ensures
            t.modulus() == 0x13,
            t.spec_width() == 4,
            t.spec_generator() == 2,
    {
        proof {
            assert(bitlen(0x13) == 5) by {
                reveal_with_fuel(bitlen, 7);
            }
            assert(exp2(4) == 0x10) by {
                reveal_with_fuel(exp2, 6);
            }
            crate::groups::lemma_gf16_order(2);
            crate::field::lemma_pmod_one(0x13, 4);
            assert forall|k: nat| 0 < k < exp2(4) - 1 implies #[trigger] powmod(2, k, 0x13) != 1 by {
                crate::groups::lemma_gf16_powers(k, 0);
            }
        }
        LogTables::new(0x13, 4, 2)
    }

    /// The tables of `gf256`: `0x11d` with generator `2`.
    pub fn for_gf256() -> (t: LogTables)
        ensures
            t.modulus() == 0x11d,
            t.spec_width() == 8,
            t.spec_generator() == 2,
    {
        proof {
            assert(bitlen(0x11d) == 9) by {
                reveal_with_fuel(bitlen, 11);
            }
            assert(exp2(8) == 0x100) by {
                reveal_with_fuel(exp2, 10);
            }
            crate::groups::lemma_gf256_order(2);
            crate::field::lemma_pmod_one(0x11d, 8);
            assert forall|k: nat| 0 < k < exp2(8) - 1 implies #[trigger] powmod(2, k, 0x11d) != 1 by {
                crate::groups::lemma_gf256_powers(k, 0);
            }
        }
        LogTables::new(0x11d, 8, 2)
    }

    /// The tables of `gf256_rijndael`: `0x11b` with generator `3`.
    pub fn for_gf256_rijndael() -> (t: LogTables)
        ensures
            t.modulus() == 0x11b,
            t.spec_width() == 8,
            t.spec_generator() == 3,
    {
        proof {
            assert(bitlen(0x11b) == 9) by {
                reveal_with_fuel(bitlen, 11);
            }
            assert(exp2(8) == 0x100) by {
                reveal_with_fuel(exp2, 10);
            }
            crate::groups::lemma_gf256_rijndael_order(3);
            crate::field::lemma_pmod_one(0x11b, 8);
            assert forall|k: nat| 0 < k < exp2(8) - 1 implies #[trigger] powmod(3, k, 0x11b) != 1 by {
                crate::groups::lemma_gf256_rijndael_powers(k, 0);
            }
        }
        LogTables::new(0x11b, 8, 3)
    }

    /// The tables of `gf4096`: `0x1053` with generator `2`.
    pub fn for_gf4096() -> (t: LogTables)
        ensures
            t.modulus() == 0x1053,
            t.spec_width() == 12,
            t.spec_generator() == 2,
    {
        proof {
            crate::order::lemma_gf4096_sizes();
            crate::order::lemma_gf4096_generator();
        }
        LogTables::new(0x1053, 12, 2)
    }

    /// The tables of `gf2p16`: `0x1002d` with generator `2`.
    pub fn for_gf2p16() -> (t: LogTables)
        ensures
            t.modulus() == 0x1002d,
            t.spec_width() == 16,
            t.spec_generator() == 2,
    {
        proof {
            crate::order::lemma_gf2p16_sizes();
            crate::order::lemma_gf2p16_generator();
        }
        LogTables::new(0x1002d, 16, 2)
    }

    /// The product `a * b`, by adding logarithms.
    pub fn mul(&self, a: u128, b: u128) -> (r: u128)
        requires
            (a as nat) < exp2(self.spec_width()),
            (b as nat) < exp2(self.spec_width()),
        ensures
            r as nat == mulmod(a as nat, b as nat, self.modulus()),
    {
        proof {
            use_type_invariant(self);
            lemma_exp2_values();
            lemma_exp2_mono(self.width as nat, 16);
            lemma_bitlen_bound(self.poly as nat);
            lemma_exp2_pos(self.width as nat);
        }
        let ghost m = self.poly as nat;
        let ghost g = self.generator as nat;
        if a == 0 || b == 0 {
            proof {
                lemma_pmul_zero(a as nat);
                lemma_pmul_zero(b as nat);
                lemma_pmod_small(0, m);
            }
            0
        } else {
            let n: usize = self.exp.len();
            let la: usize = self.log[a as usize];
            let lb: usize = self.log[b as usize];
            let s: usize = la + lb;
            let e: usize = if s >= n { s - n } else { s };
            proof {
                assert(powmod(g, la as nat, m) == a);
                assert(powmod(g, lb as nat, m) == b);
                lemma_powmod_add(g, la as nat, lb as nat, m);
                if s >= n {
                    crate::field::lemma_powmod_period(g, s as nat, n as nat, m, self.width as nat);
                }
            }
            self.exp[e]
        }
    }

    /// The quotient `a / b` of a non-zero `b`, by subtracting logarithms:
    /// `a * b^(2^w - 2)`, as the fields' `naive_div` computes it.
    pub fn div(&self, a: u128, b: u128) -> (r: u128)
        requires
            (a as nat) < exp2(self.spec_width()),
            0 < b,
            (b as nat) < exp2(self.spec_width()),
        ensures
            r as nat == mulmod(a as nat, powmod(b as nat, (exp2(self.spec_width()) - 2) as nat, self.modulus()), self.modulus()),
    {
        proof {
            use_type_invariant(self);
            lemma_exp2_values();
            lemma_exp2_mono(self.width as nat, 16);
            lemma_exp2_mono(1, self.width as nat);
            assert(exp2(1) == 2 * exp2(0));
            lemma_bitlen_bound(self.poly as nat);
            lemma_exp2_pos(self.width as nat);
        }
        let ghost m = self.poly as nat;
        let ghost g = self.generator as nat;
        let ghost w = self.width as nat;
        let n: usize = self.exp.len();
        let lb: usize = self.log[b as usize];
        // the inverse of b is g^(n - lb), reduced below n
        let ib: usize = if lb == 0 { 0 } else { n - lb };
        let ghost bi = powmod(b as nat, (exp2(w) - 2) as nat, m);
        proof {
            assert(powmod(g, lb as nat, m) == b);
            lemma_inverse_power(g, lb as nat, ib as nat, n as nat, m, w);
            assert(bi == powmod(g, ib as nat, m));
            crate::rs::distance::lemma_powmod_fits(g, ib as nat, m, w);
        }
        let r = self.mul(a, self.exp[ib]);
        r
    }
}

/// The inverse `b^(n - 1)` of `b == g^l` is `g^(n - l)` (`g^0` for `l == 0`)
/// when `g^n == 1`.
proof fn lemma_inverse_power(g: nat, l: nat, i: nat, n: nat, m: nat, w: nat)
    requires
        bitlen(m) == w + 1,
        w >= 1,
        n == exp2(w) - 1,
        powmod(g, n, m) == 1,
        l < n,
        i == (if l == 0 { 0 } else { n - l }),
    ensures
        powmod(powmod(g, l, m), (exp2(w) - 2) as nat, m) == powmod(g, i, m),
{
    crate::poly::lemma_exp2_mono(1, w);
    assert(exp2(1) == 2 * exp2(0));
    let e = (exp2(w) - 2) as nat;
    assert(e == n - 1);
    crate::field::lemma_powmod_pow(g, l, e, m);
    // l * (n - 1) == i + (l - 1) * n when l > 0, and 0 when l == 0
    if l == 0 {
        assert(l * e == 0);
    } else {
        let t = (l - 1) as nat;
        assert(l * e == i + t * n) by (nonlinear_arith)
            requires
                e == n - 1,
                i == n - l,
                t == l - 1,
                l >= 1,
        ;
        lemma_powmod_add(g, i, t * n, m);
        crate::field::lemma_powmod_pow(g, n, t, m);
        assert(n * t == t * n) by (nonlinear_arith);
        crate::field::lemma_powmod_of_one(t, m, w);
        lemma_bitlen_bound(m);
        lemma_exp2_pos(w);
        crate::poly::lemma_mulmod_one(powmod(g, i, m), m);
        crate::poly::lemma_powmod_reduced(g, i, m);
    }
}

/// `(t * 256 + b) * x^w` reduced is the byte `b` shifted into the reduced
/// `t * x^w`.
proof fn lemma_rem_byte(t: nat, b: nat, poly: nat, w: nat)
    requires
        bitlen(poly) == w + 1,
        b < 256,
    ensures
        pmod((t * 256 + b) * exp2(w), poly) == crc_byte(pmod(t * exp2(w), poly), b, poly, w),
{
    let y = pmod(t * exp2(w), poly);
    lemma_exp2_values();
    lemma_bitlen_bound(poly);
    lemma_exp2_pos(w);
    crate::poly::lemma_pmul_exp2(y, 8);
    crate::poly::lemma_pmul_exp2(t * exp2(w), 8);
    crate::poly::lemma_pmod_pmul(t * exp2(w), exp2(8), poly);
    crate::poly::lemma_pdivmod_pxor(y * 256, b * exp2(w), poly);
    crate::poly::lemma_pdivmod_pxor((t * exp2(w)) * 256, b * exp2(w), poly);
    crate::poly::lemma_pxor_disjoint(t, b, 8);
    crate::poly::lemma_pxor_shift(t * 256, b, w);
    assert((t * 256) * exp2(w) == (t * exp2(w)) * 256) by (nonlinear_arith);
}

/// The remainder table of a field of 8 to 64 digits.
pub struct RemTables {
    table: Vec<u128>,
    poly: u128,
    width: u32,
}

impl RemTables {
    #[verifier::type_invariant]
    spec fn inv(self) -> bool {
        &&& crc_params_ok(self.poly as nat, self.width as nat, 0)
        &&& 8 <= self.width <= 64
        &&& self.table@.len() == 256
        &&& forall|j: int| 0 <= j < 256 ==> (#[trigger] self.table@[j]) as nat
            == crc_byte(0, j as nat, self.poly as nat, self.width as nat)
            && (self.table@[j] as nat) < exp2(self.width as nat)
    }

    /// The defining polynomial.
    pub closed spec fn modulus(self) -> nat {
        self.poly as nat
    }

    /// The number of digits of an element.
    pub closed spec fn spec_width(self) -> nat {
        self.width as nat
    }

    /// The table for the field defined by `poly`, of `w + 1` digits with
    /// `8 <= w <= 64`: entry `i` is `i * x^w` reduced.
    pub fn new(poly: u128, w: u32) -> (t: RemTables)
        requires
            bitlen(poly as nat) == w + 1,
            8 <= w <= 64,
        ensures
            t.modulus() == poly,
            t.spec_width() == w,
    {
        proof {
            lemma_exp2_pos(w as nat);
        }
        let table = crc_table_entries(poly, w);
        RemTables { table, poly, width: w }
    }

    /// The product `a * b`: the carry-less product, with its digits from `w`
    /// up reduced a byte at a time by the table.
    pub fn mul(&self, a: u128, b: u128) -> (r: u128)
        requires
            (a as nat) < exp2(self.spec_width()),
            (b as nat) < exp2(self.spec_width()),
        ensures
            r as nat == mulmod(a as nat, b as nat, self.modulus()),
            (r as nat) < exp2(self.spec_width()),
    {
        proof {
            use_type_invariant(self);
        }
        let w = self.width;
        let poly = self.poly;
        let ghost m = poly as nat;
        proof {
            lemma_exp2_values();
            lemma_exp2_mono(w as nat, 64);
            lemma_exp2_mono(64, 128);
            crate::poly::lemma_exp2_add(w as nat, w as nat);
            crate::poly::lemma_exp2_mono((w + w) as nat, 128);
            lemma_bitlen_bound(m);
            lemma_exp2_pos(w as nat);
        }
        let p: u128 = crate::xmul::clmul(a, b, w, w);
        proof {
            crate::poly::lemma_pmul_bound(a as nat, b as nat, w as nat, w as nat);
            crate::bits::lemma_shr(p, w);
            lemma_shl(1, w);
        }
        let hi: u128 = p >> w;
        let lo: u128 = p % (1u128 << w);
        proof {
            vstd::arithmetic::div_mod::lemma_fundamental_div_mod(p as int, exp2(w as nat) as int);
            vstd::arithmetic::div_mod::lemma_mod_bound(p as int, exp2(w as nat) as int);
            assert((hi as nat) < exp2(w as nat)) by (nonlinear_arith)
                requires
                    (p as nat) < exp2(w as nat) * exp2(w as nat),
                    hi as nat == (p as nat) / exp2(w as nat),
                    exp2(w as nat) > 0,
            ;
        }
        let nb: u32 = (w + 7) / 8;
        let mut s: u128 = 0;
        let mut t: u32 = 0;
        proof {
            crate::poly::lemma_exp2_mono(w as nat, (8 * nb) as nat);
            vstd::arithmetic::div_mod::lemma_fundamental_div_mod_converse(
                hi as int, exp2((8 * nb) as nat) as int, 0, hi as int);
            crate::poly::lemma_pmul_zero(0);
            assert(0 * exp2(w as nat) == 0);
            lemma_pmod_small(0, m);
        }
        while t < nb
            invariant
                crc_params_ok(poly as nat, w as nat, 0),
                8 <= w <= 64,
                nb == (w + 7) / 8,
                t <= nb,
                m == poly as nat,
                self.table@.len() == 256,
                forall|j: int| 0 <= j < 256 ==> (#[trigger] self.table@[j]) as nat
                    == crc_byte(0, j as nat, poly as nat, w as nat)
                    && (self.table@[j] as nat) < exp2(w as nat),
                (s as nat) < exp2(w as nat),
                s as nat == pmod(((hi as nat) / exp2((8 * (nb - t)) as nat)) * exp2(w as nat), m),
            decreases nb - t,
        {
            let sh: u32 = 8 * (nb - t - 1);
            proof {
                lemma_exp2_values();
                crate::bits::lemma_shr(hi, sh);
                lemma_exp2_pos(sh as nat);
                vstd::arithmetic::div_mod::lemma_div_denominator(hi as int, exp2(sh as nat) as int, 256);
                crate::poly::lemma_exp2_add(sh as nat, 8);
                assert(sh + 8 == 8 * (nb - t));
                let q = (hi as nat) / exp2(sh as nat);
                vstd::arithmetic::div_mod::lemma_fundamental_div_mod(q as int, 256);
                lemma_rem_byte(q / 256, q % 256, m, w as nat);
                assert(q == (q / 256) * 256 + q % 256);
            }
            let byte: u128 = (hi >> sh) % 256;
            s = crc_table_step(s, byte, &self.table, poly, w);
            t = t + 1;
        }
        proof {
            assert(exp2(0) == 1);
            assert((hi as nat) / 1 == hi as nat);
            // p == hi * x^w + lo with lo reduced
            crate::poly::lemma_pxor_disjoint(hi as nat, lo as nat, w as nat);
            assert((p as nat) == (hi as nat) * exp2(w as nat) + lo as nat) by (nonlinear_arith)
                requires
                    (p as nat) == exp2(w as nat) * (hi as nat) + lo as nat,
            ;
            crate::poly::lemma_pdivmod_pxor((hi as nat) * exp2(w as nat), lo as nat, m);
            crate::poly::lemma_bitlen_le(lo as nat, w as nat);
            lemma_pmod_small(lo as nat, m);
            crate::bits::lemma_xor(s, lo);
            crate::poly::lemma_pxor_bound(s as nat, lo as nat, w as nat);
        }
        s ^ lo
    }
}

/// `(t * 16 + c) * x^w` reduced is the four digits `c` shifted into the
/// reduced `t * x^w`.
proof fn lemma_rem_nibble(t: nat, c: nat, poly: nat, w: nat)
    requires
        bitlen(poly) == w + 1,
        c < 16,
    ensures
        pmod((t * 16 + c) * exp2(w), poly) == crc_nibble(pmod(t * exp2(w), poly), c, poly, w),
{
    let y = pmod(t * exp2(w), poly);
    lemma_exp2_values();
    lemma_bitlen_bound(poly);
    lemma_exp2_pos(w);
    crate::poly::lemma_pmul_exp2(y, 4);
    crate::poly::lemma_pmul_exp2(t * exp2(w), 4);
    crate::poly::lemma_pmod_pmul(t * exp2(w), exp2(4), poly);
    crate::poly::lemma_pdivmod_pxor(y * 16, c * exp2(w), poly);
    crate::poly::lemma_pdivmod_pxor((t * exp2(w)) * 16, c * exp2(w), poly);
    crate::poly::lemma_pxor_disjoint(t, c, 4);
    crate::poly::lemma_pxor_shift(t * 16, c, w);
    assert((t * 16) * exp2(w) == (t * exp2(w)) * 16) by (nonlinear_arith);
}

/// The small remainder table of a field of 4 to 64 digits.
pub struct SmallRemTables {
    table: Vec<u128>,
    poly: u128,
    width: u32,
}

impl SmallRemTables {
    #[verifier::type_invariant]
    spec fn inv(self) -> bool {
        &&& crc_params_ok(self.poly as nat, self.width as nat, 0)
        &&& 4 <= self.width <= 64
        &&& self.table@.len() == 16
        &&& forall|j: int| 0 <= j < 16 ==> (#[trigger] self.table@[j]) as nat
            == crc_byte(0, j as nat, self.poly as nat, self.width as nat)
            && (self.table@[j] as nat) < exp2(self.width as nat)
    }

    /// The defining polynomial.
    pub closed spec fn modulus(self) -> nat {
        self.poly as nat
    }

    /// The number of digits of an element.
    pub closed spec fn spec_width(self) -> nat {
        self.width as nat
    }

    /// The table for the field defined by `poly`, of `w + 1` digits with
    /// `4 <= w <= 64`: entry `i` is `i * x^w` reduced, for `i < 16`.
    pub fn new(poly: u128, w: u32) -> (t: SmallRemTables)
        requires
            bitlen(poly as nat) == w + 1,
            4 <= w <= 64,
        ensures
            t.modulus() == poly,
            t.spec_width() == w,
    {
        proof {
            lemma_exp2_pos(w as nat);
        }
        let table = crc_small_table_entries(poly, w);
        SmallRemTables { table, poly, width: w }
    }

    /// The product `a * b`: the carry-less product, with its digits from `w`
    /// up reduced four at a time by the table.
    pub fn mul(&self, a: u128, b: u128) -> (r: u128)
        requires
            (a as nat) < exp2(self.spec_width()),
            (b as nat) < exp2(self.spec_width()),
        ensures
            r as nat == mulmod(a as nat, b as nat, self.modulus()),
            (r as nat) < exp2(self.spec_width()),
    {
        proof {
            use_type_invariant(self);
        }
        let w = self.width;
        let poly = self.poly;
        let ghost m = poly as nat;
        proof {
            lemma_exp2_values();
            lemma_exp2_mono(w as nat, 64);
            lemma_exp2_mono(64, 128);
            crate::poly::lemma_exp2_add(w as nat, w as nat);
            crate::poly::lemma_exp2_mono((w + w) as nat, 128);
            lemma_bitlen_bound(m);
            lemma_exp2_pos(w as nat);
        }
        let p: u128 = crate::xmul::clmul(a, b, w, w);
        proof {
            crate::poly::lemma_pmul_bound(a as nat, b as nat, w as nat, w as nat);
            crate::bits::lemma_shr(p, w);
            lemma_shl(1, w);
        }
        let hi: u128 = p >> w;
        let lo: u128 = p % (1u128 << w);
        proof {
            vstd::arithmetic::div_mod::lemma_fundamental_div_mod(p as int, exp2(w as nat) as int);
            vstd::arithmetic::div_mod::lemma_mod_bound(p as int, exp2(w as nat) as int);
            assert((hi as nat) < exp2(w as nat)) by (nonlinear_arith)
                requires
                    (p as nat) < exp2(w as nat) * exp2(w as nat),
                    hi as nat == (p as nat) / exp2(w as nat),
                    exp2(w as nat) > 0,
            ;
        }
        let nn: u32 = (w + 3) / 4;
        let mut s: u128 = 0;
        let mut t: u32 = 0;
        proof {
            crate::poly::lemma_exp2_mono(w as nat, (4 * nn) as nat);
            vstd::arithmetic::div_mod::lemma_fundamental_div_mod_converse(
                hi as int, exp2((4 * nn) as nat) as int, 0, hi as int);
            assert(0 * exp2(w as nat) == 0);
            lemma_pmod_small(0, m);
        }
        while t < nn
            invariant
                crc_params_ok(poly as nat, w as nat, 0),
                4 <= w <= 64,
                nn == (w + 3) / 4,
                t <= nn,
                m == poly as nat,
                self.table@.len() == 16,
                forall|j: int| 0 <= j < 16 ==> (#[trigger] self.table@[j]) as nat
                    == crc_byte(0, j as nat, poly as nat, w as nat)
                    && (self.table@[j] as nat) < exp2(w as nat),
                (s as nat) < exp2(w as nat),
                s as nat == pmod(((hi as nat) / exp2((4 * (nn - t)) as nat)) * exp2(w as nat), m),
            decreases nn - t,
        {
            let sh: u32 = 4 * (nn - t - 1);
            proof {
                lemma_exp2_values();
                crate::bits::lemma_shr(hi, sh);
                lemma_exp2_pos(sh as nat);
                vstd::arithmetic::div_mod::lemma_div_denominator(hi as int, exp2(sh as nat) as int, 16);
                crate::poly::lemma_exp2_add(sh as nat, 4);
                assert(sh + 4 == 4 * (nn - t));
                let q = (hi as nat) / exp2(sh as nat);
                vstd::arithmetic::div_mod::lemma_fundamental_div_mod(q as int, 16);
                lemma_rem_nibble(q / 16, q % 16, m, w as nat);
                assert(q == (q / 16) * 16 + q % 16);
            }
            let nib: u128 = (hi >> sh) % 16;
            s = crc_nibble_step(s, nib, &self.table, poly, w);
            t = t + 1;
        }
        proof {
            assert(exp2(0) == 1);
            assert((hi as nat) / 1 == hi as nat);
            crate::poly::lemma_pxor_disjoint(hi as nat, lo as nat, w as nat);
            assert((p as nat) == (hi as nat) * exp2(w as nat) + lo as nat) by (nonlinear_arith)
                requires
                    (p as nat) == exp2(w as nat) * (hi as nat) + lo as nat,
            ;
            crate::poly::lemma_pdivmod_pxor((hi as nat) * exp2(w as nat), lo as nat, m);
            crate::poly::lemma_bitlen_le(lo as nat, w as nat);
            lemma_pmod_small(lo as nat, m);
            crate::bits::lemma_xor(s, lo);
            crate::poly::lemma_pxor_bound(s as nat, lo as nat, w as nat);
        }
        s ^ lo
    }
}

} // verus!
