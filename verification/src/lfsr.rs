//! Linear-feedback shift registers.
//!
//! An LFSR produces a stream of pseudo-random digits from a register of `w`
//! digits and a feedback polynomial of `w + 1` digits (see `lfsr_core`). The
//! stream can be run forwards (`next`), backwards (`prev`), and jumped over
//! (`skip`, `skip_backwards`). A reflected LFSR reverses the digits of its
//! seed and of every output.

use vstd::prelude::*;
use crate::poly::{exp2, bitlen, rev, pmod, pdiv, lemma_rev_bound, lemma_rev_rev, lemma_exp2_mono,
    lemma_bitlen_bound, lemma_exp2_pos};
use crate::bits::lemma_exp2_values;
use crate::arith::{bitlen_u128, rev_u128};
use crate::lfsr_core::{
    lfsr_state, lfsr_output, lfsr_params_ok, lfsr_next_bits, lfsr_prev_bits, lfsr_skip,
    lfsr_skip_backwards, lemma_lfsr_state_injective,
};

verus! {

/// What the caller sees of `k` output digits.
pub open spec fn lfsr_visible(q: nat, k: nat, reflected: bool) -> nat {
    if reflected {
        rev(q, k)
    } else {
        q
    }
}

/// The bytes produced by filling a buffer of `n` bytes from register `s`:
/// each byte is the output of the next eight steps.
pub open spec fn lfsr_bytes(s: nat, n: nat, poly: nat, reflected: bool) -> Seq<nat>
    decreases n,
{
    if n == 0 {
        Seq::empty()
    } else {
        seq![lfsr_visible(lfsr_output(s, 8, poly), 8, reflected)]
            + lfsr_bytes(lfsr_state(s, 8, poly), (n - 1) as nat, poly, reflected)
    }
}

/// The zero register is the only one that stays zero.
proof fn lemma_state_nonzero(s: nat, k: nat, poly: nat, w: nat)
    requires
        lfsr_params_ok(poly, w),
        s < exp2(w),
        s != 0,
    ensures
        lfsr_state(s, k, poly) != 0,
{
    lemma_exp2_pos(w);
    assert(0 * exp2(k) == 0);
    lemma_bitlen_bound(poly);
    crate::poly::lemma_pmod_small(0, poly);
    if lfsr_state(s, k, poly) == 0 {
        lemma_lfsr_state_injective(s, 0, k, poly, w);
    }
}

/// Eight steps from a register of at least eight digits depend on its top
/// eight digits through `i * x^w` reduced and its quotient, and on the rest
/// shifted up by eight.
proof fn lemma_byte_step(s: nat, poly: nat, w: nat)
    requires
        lfsr_params_ok(poly, w),
        w >= 8,
        s < exp2(w),
    ensures
        lfsr_state(s, 8, poly) == crate::poly::pxor(
            pmod((s / exp2((w - 8) as nat)) * exp2(w), poly),
            (s % exp2((w - 8) as nat)) * exp2(8),
        ),
        lfsr_output(s, 8, poly) == pdiv((s / exp2((w - 8) as nat)) * exp2(w), poly),
{
    let k = (w - 8) as nat;
    let hi = s / exp2(k);
    let lo = s % exp2(k);
    lemma_exp2_pos(k);
    lemma_exp2_pos(8);
    lemma_bitlen_bound(poly);
    crate::poly::lemma_exp2_add(k, 8);
    assert(k + 8 == w);
    vstd::arithmetic::div_mod::lemma_fundamental_div_mod(s as int, exp2(k) as int);
    vstd::arithmetic::div_mod::lemma_mod_bound(s as int, exp2(k) as int);
    assert(s * exp2(8) == hi * exp2(w) + lo * exp2(8)) by (nonlinear_arith)
        requires
            s == exp2(k) * hi + lo,
            exp2(w) == exp2(k) * exp2(8),
    ;
    assert(lo * exp2(8) < exp2(w)) by (nonlinear_arith)
        requires
            lo < exp2(k),
            exp2(w) == exp2(k) * exp2(8),
            exp2(8) > 0,
    ;
    crate::poly::lemma_pxor_disjoint(hi, lo * exp2(8), w);
    crate::poly::lemma_pdivmod_pxor(hi * exp2(w), lo * exp2(8), poly);
    crate::poly::lemma_bitlen_le(lo * exp2(8), w);
    crate::poly::lemma_pmod_small(lo * exp2(8), poly);
    crate::poly::lemma_pxor_zero(pdiv(hi * exp2(w), poly));
}

/// Tables for stepping an LFSR of at least eight digits a byte at a time:
/// entry `i` of `state` is `i * x^w` reduced modulo the feedback polynomial,
/// and entry `i` of `output` is the quotient.
pub struct LfsrTables {
    state: Vec<u128>,
    output: Vec<u128>,
    poly: u128,
    width: u32,
}

impl LfsrTables {
    #[verifier::type_invariant]
    spec fn inv(self) -> bool {
        &&& lfsr_params_ok(self.poly as nat, self.width as nat)
        &&& self.width >= 8
        &&& self.state@.len() == 256
        &&& self.output@.len() == 256
        &&& forall|i: int| 0 <= i < 256 ==> (#[trigger] self.state@[i]) as nat
            == pmod((i as nat) * exp2(self.width as nat), self.poly as nat)
        &&& forall|i: int| 0 <= i < 256 ==> (#[trigger] self.output@[i]) as nat
            == pdiv((i as nat) * exp2(self.width as nat), self.poly as nat)
    }

    /// The feedback polynomial.
    pub closed spec fn polynomial(self) -> nat {
        self.poly as nat
    }

    /// The tables for feedback `polynomial` (of `w + 1` digits,
    /// `8 <= w <= 64`, constant term 1).
    pub fn new(polynomial: u128) -> (t: LfsrTables)
        requires
            lfsr_params_ok(polynomial as nat, (bitlen(polynomial as nat) - 1) as nat),
            bitlen(polynomial as nat) >= 9,
        ensures
            t.polynomial() == polynomial as nat,
    {
        let w = bitlen_u128(polynomial) - 1;
        let mut state: Vec<u128> = Vec::new();
        let mut output: Vec<u128> = Vec::new();
        let mut i: u128 = 0;
        proof {
            lemma_exp2_values();
            lemma_bitlen_bound(polynomial as nat);
        }
        while i < 256
            invariant
                lfsr_params_ok(polynomial as nat, w as nat),
                w >= 8,
                polynomial > 0,
                i <= 256,
                state@.len() == i,
                output@.len() == i,
                forall|j: int| 0 <= j < i ==> (#[trigger] state@[j]) as nat
                    == pmod((j as nat) * exp2(w as nat), polynomial as nat),
                forall|j: int| 0 <= j < i ==> (#[trigger] output@[j]) as nat
                    == pdiv((j as nat) * exp2(w as nat), polynomial as nat),
            decreases 256 - i,
        {
            proof {
                lemma_exp2_values();
                lemma_exp2_mono(w as nat, 64);
                assert((i as nat) * exp2(w as nat) < exp2(128)) by (nonlinear_arith)
                    requires
                        i < 256,
                        exp2(w as nat) <= 0x1_0000_0000_0000_0000,
                        exp2(128) == 0x1_0000_0000_0000_0000_0000_0000_0000_0000,
                ;
                crate::bits::lemma_shl(i, w);
            }
            let (q, r) = crate::arith::pdivmod_u128(i << w, polynomial);
            state.push(r);
            output.push(q);
            i = i + 1;
        }
        LfsrTables { state, output, poly: polynomial, width: w }
    }
}

/// A linear-feedback shift register whose feedback polynomial is chosen when
/// it is created.
pub struct Lfsr {
    state: u128,
    poly: u128,
    width: u32,
    reflected: bool,
}

impl Lfsr {
    #[verifier::type_invariant]
    spec fn inv(self) -> bool {
        &&& lfsr_params_ok(self.poly as nat, self.width as nat)
        &&& 0 < self.state
        &&& (self.state as nat) < exp2(self.width as nat)
    }

    /// The register, unreflected.
    pub closed spec fn register(self) -> nat {
        self.state as nat
    }

    /// The feedback polynomial.
    pub closed spec fn polynomial(self) -> nat {
        self.poly as nat
    }

    /// The number of digits of the register.
    pub closed spec fn spec_width(self) -> nat {
        self.width as nat
    }

    /// Whether seed and outputs are digit-reversed.
    pub closed spec fn is_reflected(self) -> bool {
        self.reflected
    }

    /// An LFSR with feedback `polynomial` (of `w + 1` digits, `2 <= w <= 64`,
    /// constant term 1), started from the non-zero `seed` of at most `w`
    /// digits.
    pub fn new(polynomial: u128, reflected: bool, seed: u64) -> (r: Lfsr)
        requires
            lfsr_params_ok(polynomial as nat, (bitlen(polynomial as nat) - 1) as nat),
            seed != 0,
            (seed as nat) < exp2((bitlen(polynomial as nat) - 1) as nat),
        ensures
            r.polynomial() == polynomial as nat,
            r.spec_width() == bitlen(polynomial as nat) - 1,
            r.is_reflected() == reflected,
            r.register() == (if reflected { rev(seed as nat, r.spec_width()) } else { seed as nat }),
    {
        let w = bitlen_u128(polynomial) - 1;
        let state = if reflected { rev_u128(seed as u128, w) } else { seed as u128 };
        proof {
            if reflected {
                lemma_rev_rev(seed as nat, w as nat);
                lemma_rev_bound(seed as nat, w as nat);
                if state == 0 {
                    assert(rev(0, w as nat) == 0) by {
                        lemma_rev_zero(w as nat);
                    }
                }
            }
        }
        Lfsr { state, poly: polynomial, width: w, reflected }
    }

    /// The register, unreflected.
    pub fn register_value(&self) -> (r: u128)
        ensures
            r as nat == self.register(),
            0 < r,
            (r as nat) < exp2(self.spec_width()),
            lfsr_params_ok(self.polynomial(), self.spec_width()),
    {
        proof {
            use_type_invariant(self);
        }
        self.state
    }

    /// The number of digits of the register.
    pub fn width(&self) -> (r: u32)
        ensures
            r as nat == self.spec_width(),
    {
        self.width
    }

    /// Step `bits` digits forward, returning the digits output.
    pub fn next(&mut self, bits: u32) -> (r: u64)
        requires
            bits <= old(self).spec_width(),
        ensures
            final(self).polynomial() == old(self).polynomial(),
            final(self).spec_width() == old(self).spec_width(),
            final(self).is_reflected() == old(self).is_reflected(),
            final(self).register() == lfsr_state(old(self).register(), bits as nat, old(self).polynomial()),
            r as nat == lfsr_visible(
                lfsr_output(old(self).register(), bits as nat, old(self).polynomial()),
                bits as nat,
                old(self).is_reflected(),
            ),
    {
        proof {
            use_type_invariant(&*self);
        }
        let (q, s) = lfsr_next_bits(self.state, bits, self.poly, self.width);
        proof {
            lemma_state_nonzero(self.state as nat, bits as nat, self.poly as nat, self.width as nat);
        }
        self.state = s;
        let out = if self.reflected { rev_u128(q, bits) } else { q };
        proof {
            lemma_exp2_values();
            lemma_exp2_mono(bits as nat, 64);
            lemma_rev_bound(q as nat, bits as nat);
        }
        out as u64
    }

    /// Step eight digits forward, as `next(8)` does, by looking the top
    /// eight digits of the register up in the tables `t` of the same
    /// feedback polynomial.
    pub fn next_byte(&mut self, t: &LfsrTables) -> (r: u64)
        requires
            t.polynomial() == old(self).polynomial(),
            old(self).spec_width() >= 8,
        ensures
            final(self).polynomial() == old(self).polynomial(),
            final(self).spec_width() == old(self).spec_width(),
            final(self).is_reflected() == old(self).is_reflected(),
            final(self).register() == lfsr_state(old(self).register(), 8, old(self).polynomial()),
            r as nat == lfsr_visible(lfsr_output(old(self).register(), 8, old(self).polynomial()), 8, old(self).is_reflected()),
    {
        proof {
            use_type_invariant(&*self);
            use_type_invariant(t);
        }
        let w: u32 = self.width;
        let k: u32 = w - 8;
        let ghost s0 = self.state as nat;
        let ghost m = self.poly as nat;
        proof {
            lemma_exp2_values();
            lemma_exp2_mono(w as nat, 64);
            lemma_exp2_mono(k as nat, 64);
            lemma_exp2_mono(64, 128);
            crate::bits::lemma_shr(self.state, k);
            crate::bits::lemma_shl(1, k);
            crate::poly::lemma_exp2_add(k as nat, 8);
            assert(k + 8 == w);
            lemma_exp2_pos(k as nat);
            vstd::arithmetic::div_mod::lemma_mod_bound(s0 as int, exp2(k as nat) as int);
            assert(s0 / exp2(k as nat) < 256) by (nonlinear_arith)
                requires
                    s0 < exp2(w as nat),
                    exp2(w as nat) == exp2(k as nat) * 256,
                    exp2(k as nat) > 0,
            ;
        }
        let hi: u128 = self.state >> k;
        let lo: u128 = self.state % (1u128 << k);
        proof {
            assert((lo as nat) * 256 < exp2(w as nat)) by (nonlinear_arith)
                requires
                    (lo as nat) < exp2(k as nat),
                    exp2(w as nat) == exp2(k as nat) * 256,
            ;
            crate::bits::lemma_shl(lo, 8);
            lemma_byte_step(s0, m, w as nat);
            lemma_state_nonzero(s0, 8, m, w as nat);
            lemma_output_bound(s0, 8, m, w as nat);
            crate::poly::lemma_pmod_bound((hi as nat) * exp2(w as nat), m);
        }
        let e: u128 = t.state[hi as usize];
        let q: u128 = t.output[hi as usize];
        let lo8: u128 = lo << 8u32;
        proof {
            crate::bits::lemma_xor(e, lo8);
            crate::poly::lemma_pxor_bound(e as nat, lo8 as nat, w as nat);
        }
        self.state = e ^ lo8;
        let out = if self.reflected { rev_u128(q, 8) } else { q };
        proof {
            lemma_rev_bound(q as nat, 8);
        }
        out as u64
    }

    /// Step `bits` digits backward, returning the digits that stepping
    /// forward again would output.
    pub fn prev(&mut self, bits: u32) -> (r: u64)
        requires
            bits <= old(self).spec_width(),
        ensures
            final(self).polynomial() == old(self).polynomial(),
            final(self).spec_width() == old(self).spec_width(),
            final(self).is_reflected() == old(self).is_reflected(),
            lfsr_state(final(self).register(), bits as nat, old(self).polynomial()) == old(self).register(),
            final(self).register() < exp2(old(self).spec_width()),
            r as nat == lfsr_visible(
                lfsr_output(final(self).register(), bits as nat, old(self).polynomial()),
                bits as nat,
                old(self).is_reflected(),
            ),
    {
        proof {
            use_type_invariant(&*self);
        }
        let (q, s) = lfsr_prev_bits(self.state, bits, self.poly, self.width);
        proof {
            if s == 0 {
                lemma_exp2_pos(self.width as nat);
                assert(0 * exp2(bits as nat) == 0);
                lemma_bitlen_bound(self.poly as nat);
                crate::poly::lemma_pmod_small(0, self.poly as nat);
            }
        }
        self.state = s;
        let out = if self.reflected { rev_u128(q, bits) } else { q };
        proof {
            lemma_exp2_values();
            lemma_exp2_mono(bits as nat, 64);
            lemma_rev_bound(q as nat, bits as nat);
        }
        out as u64
    }

    /// Jump `bits` digits forward.
    pub fn skip(&mut self, bits: u64)
        ensures
            final(self).polynomial() == old(self).polynomial(),
            final(self).spec_width() == old(self).spec_width(),
            final(self).is_reflected() == old(self).is_reflected(),
            final(self).register() == lfsr_state(old(self).register(), bits as nat, old(self).polynomial()),
    {
        proof {
            use_type_invariant(&*self);
        }
        let s = lfsr_skip(self.state, bits as u128, self.poly, self.width);
        proof {
            lemma_state_nonzero(self.state as nat, bits as nat, self.poly as nat, self.width as nat);
        }
        self.state = s;
    }

    /// Jump `bits` digits backward.
    pub fn skip_backwards(&mut self, bits: u64)
        ensures
            final(self).polynomial() == old(self).polynomial(),
            final(self).spec_width() == old(self).spec_width(),
            final(self).is_reflected() == old(self).is_reflected(),
            lfsr_state(final(self).register(), bits as nat, old(self).polynomial()) == old(self).register(),
            final(self).register() < exp2(old(self).spec_width()),
    {
        proof {
            use_type_invariant(&*self);
        }
        let s = lfsr_skip_backwards(self.state, bits as u128, self.poly, self.width);
        proof {
            if s == 0 {
                lemma_exp2_pos(self.width as nat);
                assert(0 * exp2(bits as nat) == 0);
                lemma_bitlen_bound(self.poly as nat);
                crate::poly::lemma_pmod_small(0, self.poly as nat);
            }
        }
        self.state = s;
    }

    /// Fill `buf` with the bytes output by successive eight-digit steps.
    pub fn fill(&mut self, buf: &mut Vec<u8>)
        ensures
            final(self).polynomial() == old(self).polynomial(),
            final(self).spec_width() == old(self).spec_width(),
            final(self).is_reflected() == old(self).is_reflected(),
            final(self).register() == lfsr_state(old(self).register(), (8 * old(buf).len()) as nat, old(self).polynomial()),
            final(buf).len() == old(buf).len(),
            forall|i: int| 0 <= i < final(buf).len() ==> final(buf)@[i] as nat == lfsr_bytes(
                old(self).register(),
                old(buf).len() as nat,
                old(self).polynomial(),
                old(self).is_reflected(),
            )[i],
    {
        proof {
            use_type_invariant(&*self);
        }
        let ghost s0 = self.state as nat;
        let ghost n = buf.len() as nat;
        let ghost poly = self.poly as nat;
        let ghost w = self.width as nat;
        let ghost refl = self.reflected;
        let mut i: usize = 0;
        proof {
            assert(lfsr_state(s0, 0, poly) == s0) by {
                assert(exp2(0) == 1);
                assert(s0 * 1 == s0);
                lemma_bitlen_bound(poly);
                crate::poly::lemma_bitlen_le(s0, w);
                crate::poly::lemma_pmod_small(s0, poly);
            }
        }
        while i < buf.len()
            invariant
                i <= buf.len(),
                buf.len() == n,
                poly == self.poly as nat,
                w == self.width as nat,
                refl == self.reflected,
                lfsr_params_ok(poly, w),
                0 < self.state,
                (self.state as nat) < exp2(w),
                self.state as nat == lfsr_state(s0, (8 * i) as nat, poly),
                forall|k: int| 0 <= k < i ==> buf@[k] as nat == lfsr_visible(
                    lfsr_output(lfsr_state(s0, (8 * k) as nat, poly), 8, poly), 8, refl),
            decreases buf.len() - i,
        {
            let (q, s) = lfsr_next_bits(self.state, 8, self.poly, self.width);
            proof {
                lemma_state_nonzero(self.state as nat, 8, self.poly as nat, self.width as nat);
                crate::lfsr_core::lemma_lfsr_state_add(s0, (8 * i) as nat, 8, poly, w);
                assert((8 * i) as nat + 8 == (8 * (i + 1)) as nat);
                lemma_exp2_values();
                lemma_rev_bound(q as nat, 8);
            }
            let out = if self.reflected { rev_u128(q, 8) } else { q };
            self.state = s;
            buf.set(i, out as u8);
            i = i + 1;
        }
        proof {
            assert forall|k: int| 0 <= k < n implies buf@[k] as nat == lfsr_bytes(s0, n, poly, refl)[k] by {
                lemma_lfsr_bytes_index(s0, n, k as nat, poly, refl, w);
            }
        }
    }
}

/// The `k`-th byte of a fill is the output of the eight steps starting at
/// step `8 * k`.
proof fn lemma_lfsr_bytes_index(s: nat, n: nat, k: nat, poly: nat, refl: bool, w: nat)
    requires
        lfsr_params_ok(poly, w),
        k < n,
        s < exp2(w),
    ensures
        lfsr_bytes(s, n, poly, refl).len() == n,
        lfsr_bytes(s, n, poly, refl)[k as int] == lfsr_visible(
            lfsr_output(lfsr_state(s, 8 * k, poly), 8, poly), 8, refl),
    decreases k,
{
    lemma_lfsr_bytes_len(s, n, poly, refl);
    if k == 0 {
        assert(lfsr_state(s, 0, poly) == pmod(s, poly)) by {
            assert(exp2(0) == 1);
            assert(s * 1 == s);
        }
        assert(lfsr_output(pmod(s, poly), 8, poly) == lfsr_output(s, 8, poly)) by {
            lemma_output_reduce(s, 8, poly, w);
        }
    } else {
        let s1 = lfsr_state(s, 8, poly);
        lemma_bitlen_bound(poly);
        crate::poly::lemma_pmod_bound(s * exp2(8), poly);
        lemma_lfsr_bytes_index(s1, (n - 1) as nat, (k - 1) as nat, poly, refl, w);
        crate::lfsr_core::lemma_lfsr_state_add(s, 8, 8 * (k - 1) as nat, poly, w);
        assert(8 + 8 * (k - 1) as nat == 8 * k);
        lemma_lfsr_bytes_len(s1, (n - 1) as nat, poly, refl);
    }
}

proof fn lemma_lfsr_bytes_len(s: nat, n: nat, poly: nat, refl: bool)
    ensures
        lfsr_bytes(s, n, poly, refl).len() == n,
    decreases n,
{
    if n > 0 {
        lemma_lfsr_bytes_len(lfsr_state(s, 8, poly), (n - 1) as nat, poly, refl);
    }
}

/// The output of a step only depends on the register modulo the polynomial
/// up to multiples of `x^k`; for a reduced register it is unchanged.
proof fn lemma_output_reduce(s: nat, k: nat, poly: nat, w: nat)
    requires
        lfsr_params_ok(poly, w),
    ensures
        s < exp2(w) ==> lfsr_output(pmod(s, poly), k, poly) == lfsr_output(s, k, poly),
{
    if s < exp2(w) {
        lemma_bitlen_bound(poly);
        crate::poly::lemma_bitlen_le(s, w);
        crate::poly::lemma_pmod_small(s, poly);
    }
}

/// The output of `k <= w` steps has at most `k` digits.
proof fn lemma_output_bound(s: nat, k: nat, poly: nat, w: nat)
    requires
        lfsr_params_ok(poly, w),
        s < exp2(w),
        k <= w,
    ensures
        lfsr_output(s, k, poly) < exp2(k),
        lfsr_output(s, k, poly) < exp2(w),
{
    lemma_exp2_pos(w);
    lemma_exp2_pos(k);
    lemma_bitlen_bound(poly);
    if s == 0 {
        assert(0 * exp2(k) == 0);
        crate::poly::lemma_pmod_small(0, poly);
    } else {
        crate::poly::lemma_bitlen_shift(s, k);
        lemma_bitlen_bound(s);
        crate::poly::lemma_bitlen_le(s, w);
        crate::poly::lemma_pdiv_bitlen(s * exp2(k), poly);
        lemma_bitlen_bound(pdiv(s * exp2(k), poly));
        if bitlen(s * exp2(k)) >= bitlen(poly) {
            lemma_exp2_mono(bitlen(pdiv(s * exp2(k), poly)), k);
        }
    }
    lemma_exp2_mono(k, w);
}

/// Stepping back undoes stepping forward. After `next(k)` has moved the
/// register from `s` to `lfsr_state(s, k)`, a `prev(k)` lands on a register
/// `t` below `2^w` with `lfsr_state(t, k) == lfsr_state(s, k)`: that `t` is
/// `s` itself, and the digits `prev` reports are the digits `next` returned.
/// The same holds of `skip(k)` followed by `skip_backwards(k)`.
pub proof fn lemma_lfsr_prev_undoes_next(s: nat, t: nat, k: nat, poly: nat, w: nat, reflected: bool)
    requires
        lfsr_params_ok(poly, w),
        s < exp2(w),
        t < exp2(w),
        lfsr_state(t, k, poly) == lfsr_state(s, k, poly),
    ensures
        t == s,
        lfsr_visible(lfsr_output(t, k, poly), k, reflected)
            == lfsr_visible(lfsr_output(s, k, poly), k, reflected),
{
    lemma_lfsr_state_injective(s, t, k, poly, w);
}

/// Steps compose: `a` steps and then `b` steps (by `next`, `skip` or any
/// mix of them) reach the register that `a + b` steps reach, so `skip(a)`
/// followed by `skip(b)` is `skip(a + b)`.
pub proof fn lemma_lfsr_steps_compose(s: nat, a: nat, b: nat, poly: nat, w: nat)
    requires
        lfsr_params_ok(poly, w),
    ensures
        lfsr_state(lfsr_state(s, a, poly), b, poly) == lfsr_state(s, a + b, poly),
{
    crate::lfsr_core::lemma_lfsr_state_add(s, a, b, poly, w);
}

/// The register after `n` single steps, one `next(1)` at a time.
pub open spec fn lfsr_single_steps(s: nat, n: nat, poly: nat) -> nat
    decreases n,
{
    if n == 0 {
        s
    } else {
        lfsr_state(lfsr_single_steps(s, (n - 1) as nat, poly), 1, poly)
    }
}

/// Jumping `n` steps is taking `n` single steps: `skip(n)` lands on the
/// register that `n` calls of `next(1)` land on, so every later call
/// agrees.
pub proof fn lemma_lfsr_skip_is_single_steps(s: nat, n: nat, poly: nat, w: nat)
    requires
        lfsr_params_ok(poly, w),
        s < exp2(w),
    ensures
        lfsr_single_steps(s, n, poly) == lfsr_state(s, n, poly),
    decreases n,
{
    if n == 0 {
        crate::poly::lemma_bitlen_le(s, w);
        assert(exp2(0) == 1) by {
            reveal_with_fuel(exp2, 1);
        }
        assert(s * exp2(0) == s);
        crate::poly::lemma_pmod_small(s, poly);
    } else {
        lemma_lfsr_skip_is_single_steps(s, (n - 1) as nat, poly, w);
        crate::lfsr_core::lemma_lfsr_state_add(s, (n - 1) as nat, 1, poly, w);
    }
}

/// The output digits form one stream whatever the chunks it is read in:
/// the `a` digits of a first `next(a)`, shifted up by `b`, and the `b`
/// digits of the `next(b)` after it together make the `a + b` digits of
/// one `next(a + b)` (unreflected; a reflected LFSR reverses each chunk).
pub proof fn lemma_lfsr_outputs_concat(s: nat, a: nat, b: nat, poly: nat, w: nat)
    requires
        lfsr_params_ok(poly, w),
    ensures
        lfsr_output(s, a + b, poly) == crate::poly::pxor(
            lfsr_output(s, a, poly) * exp2(b),
            lfsr_output(lfsr_state(s, a, poly), b, poly),
        ),
{
    lemma_bitlen_bound(poly);
    let big = s * exp2(a);
    let q1 = pdiv(big, poly);
    let r1 = pmod(big, poly);
    let q2 = pdiv(r1 * exp2(b), poly);
    let r2 = pmod(r1 * exp2(b), poly);
    crate::poly::lemma_pdivmod(big, poly);
    crate::poly::lemma_pdivmod(r1 * exp2(b), poly);
    crate::poly::lemma_exp2_add(a, b);
    assert(s * exp2(a + b) == big * exp2(b)) by (nonlinear_arith)
        requires
            exp2(a + b) == exp2(a) * exp2(b),
            big == s * exp2(a),
    ;
    crate::poly::lemma_pmul_exp2(big, b);
    crate::poly::lemma_pmul_exp2(r1, b);
    crate::poly::lemma_pmul_exp2(q1, b);
    let qp = crate::poly::pmul(q1, poly);
    crate::poly::lemma_pmul_distrib_left(qp, r1, exp2(b));
    crate::poly::lemma_pmul_assoc(q1, poly, exp2(b));
    crate::poly::lemma_pmul_comm(poly, exp2(b));
    crate::poly::lemma_pmul_assoc(q1, exp2(b), poly);
    crate::poly::lemma_pmul_distrib_left(q1 * exp2(b), q2, poly);
    crate::poly::lemma_pxor_assoc(crate::poly::pmul(q1 * exp2(b), poly), crate::poly::pmul(q2, poly), r2);
    crate::poly::lemma_pdivmod_unique(s * exp2(a + b), poly, crate::poly::pxor(q1 * exp2(b), q2), r2);
}

/// Filling a buffer gives the bytes that successive `next(8)` calls give:
/// byte `i` is what `next(8)` returns from the register `8 i` steps on.
pub proof fn lemma_lfsr_fill_is_nexts(s: nat, n: nat, i: nat, poly: nat, w: nat, reflected: bool)
    requires
        lfsr_params_ok(poly, w),
        s < exp2(w),
        i < n,
    ensures
        lfsr_bytes(s, n, poly, reflected).len() == n,
        lfsr_bytes(s, n, poly, reflected)[i as int]
            == lfsr_visible(lfsr_output(lfsr_state(s, 8 * i, poly), 8, poly), 8, reflected),
    decreases n,
{
    lemma_lfsr_bytes_len(s, n, poly, reflected);
    if i == 0 {
        lemma_lfsr_skip_is_single_steps(s, 0, poly, w);
    } else {
        let t = lfsr_state(s, 8, poly);
        lemma_bitlen_bound(poly);
        crate::poly::lemma_pmod_bound(s * exp2(8), poly);
        lemma_lfsr_fill_is_nexts(t, (n - 1) as nat, (i - 1) as nat, poly, w, reflected);
        crate::lfsr_core::lemma_lfsr_state_add(s, 8, 8 * (i - 1) as nat, poly, w);
        assert(8 + 8 * (i - 1) as nat == 8 * i);
    }
}

/// The 8-digit LFSR with feedback `0x11d` comes back to every non-zero
/// register after 255 steps, and not before: its period is the largest an
/// 8-digit register allows.
pub proof fn lemma_lfsr8_period(s: nat)
    requires
        0 < s < 0x100,
    ensures
        lfsr_state(s, 255, 0x11d) == s,
        forall|k: nat| 0 < k < 255 ==> #[trigger] lfsr_state(s, k, 0x11d) != s,
{
    lfsr8_facts();
    crate::groups::lemma_gf256_order(2);
    crate::lfsr_core::lemma_mul_xn(s, 255, 0x11d, 8);
    crate::poly::lemma_mulmod_one(s, 0x11d);
    crate::poly::lemma_bitlen_le(s, 8);
    crate::poly::lemma_pmod_small(s, 0x11d);
    crate::rs::lemma_gf256_rs_facts(255);
    assert forall|k: nat| 0 < k < 255 implies #[trigger] lfsr_state(s, k, 0x11d) != s by {
        crate::lfsr_core::lemma_mul_xn(s, k, 0x11d, 8);
        let xk = crate::poly::powmod(2, k, 0x11d);
        if lfsr_state(s, k, 0x11d) == s {
            crate::poly::lemma_mulmod_comm(s, xk, 0x11d);
            crate::rs::distance::lemma_powmod_fits(2, k, 0x11d, 8);
            crate::raid::algebra::lemma_div_mul(xk, s, 0x11d, 8);
            crate::raid::algebra::lemma_div_mul(1, s, 0x11d, 8);
            crate::poly::lemma_bitlen_le(1, 8);
            crate::poly::lemma_pmod_small(1, 0x11d);
            assert(crate::poly::powmod(2, 0, 0x11d) == 1);
            crate::groups::lemma_gf256_powers(k, 0);
        }
    }
}

/// A register whose feedback polynomial makes `x` an element of order
/// `2^w - 1` in a field comes back to every non-zero state after `2^w - 1`
/// steps, and not before.
proof fn lemma_period_of_order(s: nat, poly: nat, w: nat)
    requires
        lfsr_params_ok(poly, w),
        0 < s < exp2(w),
        crate::raid::algebra::field_inverts(poly, w),
        crate::poly::powmod(2, (exp2(w) - 1) as nat, poly) == 1,
        forall|k: nat| 0 < k < exp2(w) - 1 ==> #[trigger] crate::poly::powmod(2, k, poly) != 1,
    ensures
        lfsr_state(s, (exp2(w) - 1) as nat, poly) == s,
        forall|k: nat| 0 < k < exp2(w) - 1 ==> #[trigger] lfsr_state(s, k, poly) != s,
{
    let n = (exp2(w) - 1) as nat;
    lemma_bitlen_bound(poly);
    crate::poly::lemma_exp2_pos(w);
    crate::lfsr_core::lemma_mul_xn(s, n, poly, w);
    crate::poly::lemma_mulmod_one(s, poly);
    crate::poly::lemma_bitlen_le(s, w);
    crate::poly::lemma_pmod_small(s, poly);
    assert forall|k: nat| 0 < k < exp2(w) - 1 implies #[trigger] lfsr_state(s, k, poly) != s by {
        crate::lfsr_core::lemma_mul_xn(s, k, poly, w);
        let xk = crate::poly::powmod(2, k, poly);
        if lfsr_state(s, k, poly) == s {
            crate::poly::lemma_mulmod_comm(s, xk, poly);
            crate::poly::lemma_mulmod_comm(s, 1, poly);
            crate::rs::distance::lemma_powmod_fits(2, k, poly, w);
            crate::raid::algebra::lemma_div_mul(xk, s, poly, w);
            crate::poly::lemma_exp2_mono(1, w);
            assert(exp2(1) == 2 * exp2(0));
            crate::raid::algebra::lemma_div_mul(1, s, poly, w);
            assert(xk == 1);
        }
    }
}

/// The 16-digit LFSR with feedback `0x1002d` comes back to every non-zero
/// register after `2^16 - 1` steps, and not before.
pub proof fn lemma_lfsr16_period(s: nat)
    requires
        0 < s < 0x10000,
    ensures
        lfsr_state(s, 0xffff, 0x1002d) == s,
        forall|k: nat| 0 < k < 0xffff ==> #[trigger] lfsr_state(s, k, 0x1002d) != s,
{
    lfsr16_facts();
    crate::order::lemma_gf2p16_field();
    crate::order::lemma_gf2p16_generator();
    lemma_period_of_order(s, 0x1002d, 16);
}

/// The 32-digit LFSR with feedback `0x1000000af` comes back to every
/// non-zero register after `2^32 - 1` steps, and not before.
pub proof fn lemma_lfsr32_period(s: nat)
    requires
        0 < s < 0x100000000,
    ensures
        lfsr_state(s, 0xffffffff, 0x1000000af) == s,
        forall|k: nat| 0 < k < 0xffffffff ==> #[trigger] lfsr_state(s, k, 0x1000000af) != s,
{
    lfsr32_facts();
    crate::order::lemma_gf2p32_field();
    crate::order::lemma_gf2p32_generator();
    lemma_period_of_order(s, 0x1000000af, 32);
}

/// The 64-digit LFSR with feedback `0x1000000000000001b` comes back to every
/// non-zero register after `2^64 - 1` steps, and not before.
pub proof fn lemma_lfsr64_period(s: nat)
    requires
        0 < s < 0x10000000000000000,
    ensures
        lfsr_state(s, 0xffffffffffffffff, 0x1000000000000001b) == s,
        forall|k: nat| 0 < k < 0xffffffffffffffff ==> #[trigger] lfsr_state(s, k, 0x1000000000000001b) != s,
{
    lfsr64_facts();
    crate::order::lemma_gf2p64_field();
    crate::order::lemma_gf2p64_generator();
    lemma_period_of_order(s, 0x1000000000000001b, 64);
}

/// An LFSR with 8 digits of state and feedback polynomial `0x11d`.
pub struct Lfsr8 {
    state: u8,
}

impl Lfsr8 {
    #[verifier::type_invariant]
    spec fn inv(self) -> bool {
        self.state != 0
    }

    /// The register.
    pub closed spec fn register(self) -> nat {
        self.state as nat
    }

    /// The general LFSR with the same register.
    fn as_lfsr(&self) -> (r: Lfsr)
        ensures
            r.polynomial() == 0x11d,
            r.spec_width() == 8,
            !r.is_reflected(),
            r.register() == self.register(),
    {
        proof {
            use_type_invariant(self);
            lfsr8_facts();
        }
        Lfsr::new(0x11d, false, self.state as u64)
    }

    /// Take the register of `l` back.
    fn set_from(&mut self, l: &Lfsr)
        requires
            l.polynomial() == 0x11d,
            l.spec_width() == 8,
        ensures
            final(self).register() == l.register(),
    {
        proof {
            lfsr8_facts();
        }
        let s = l.register_value();
        self.state = s as u8;
    }

    /// An LFSR started from the non-zero `seed`.
    pub fn new(seed: u8) -> (r: Lfsr8)
        requires
            seed != 0,
        ensures
            r.register() == seed as nat,
    {
        Lfsr8 { state: seed }
    }

    /// The register, which is never zero.
    pub fn register_value(&self) -> (r: u8)
        ensures
            r as nat == self.register(),
            r != 0,
    {
        proof {
            use_type_invariant(self);
        }
        self.state
    }

    /// Step `bits` digits forward, returning the digits output.
    pub fn next(&mut self, bits: u32) -> (r: u8)
        requires
            bits <= 8,
        ensures
            final(self).register() == lfsr_state(old(self).register(), bits as nat, 0x11d),
            r as nat == lfsr_output(old(self).register(), bits as nat, 0x11d),
    {
        let mut l = self.as_lfsr();
        let r = l.next(bits);
        self.set_from(&l);
        proof {
            lfsr8_facts();
            lemma_output_bound(old(self).register(), bits as nat, 0x11d, 8);
        }
        r as u8
    }

    /// Step `bits` digits backward, returning the digits that stepping
    /// forward again would output.
    pub fn prev(&mut self, bits: u32) -> (r: u8)
        requires
            bits <= 8,
        ensures
            lfsr_state(final(self).register(), bits as nat, 0x11d) == old(self).register(),
            final(self).register() < exp2(8),
            r as nat == lfsr_output(final(self).register(), bits as nat, 0x11d),
    {
        let mut l = self.as_lfsr();
        let r = l.prev(bits);
        self.set_from(&l);
        proof {
            lfsr8_facts();
            lemma_output_bound(self.register(), bits as nat, 0x11d, 8);
        }
        r as u8
    }

    /// Jump `bits` digits forward.
    pub fn skip(&mut self, bits: u8)
        ensures
            final(self).register() == lfsr_state(old(self).register(), bits as nat, 0x11d),
    {
        let mut l = self.as_lfsr();
        l.skip(bits as u64);
        self.set_from(&l);
    }

    /// Jump `bits` digits backward.
    pub fn skip_backwards(&mut self, bits: u8)
        ensures
            lfsr_state(final(self).register(), bits as nat, 0x11d) == old(self).register(),
            final(self).register() < exp2(8),
    {
        let mut l = self.as_lfsr();
        l.skip_backwards(bits as u64);
        self.set_from(&l);
    }

    /// Fill `buf` with the bytes output by successive eight-digit steps.
    pub fn fill(&mut self, buf: &mut Vec<u8>)
        ensures
            final(self).register() == lfsr_state(old(self).register(), (8 * old(buf).len()) as nat, 0x11d),
            final(buf).len() == old(buf).len(),
            forall|i: int| 0 <= i < final(buf).len() ==> final(buf)@[i] as nat
                == lfsr_bytes(old(self).register(), old(buf).len() as nat, 0x11d, false)[i],
    {
        let mut l = self.as_lfsr();
        l.fill(buf);
        self.set_from(&l);
    }
}

proof fn lfsr8_facts()
    ensures
        lfsr_params_ok(0x11d, 8),
        bitlen(0x11d) == 9,
        exp2(8) == 0x100,
        (0x11d as nat) % 2 == 1,
{
    reveal_with_fuel(bitlen, 11);
    reveal_with_fuel(exp2, 11);
}

/// An LFSR with 16 digits of state and feedback polynomial `0x1002d`.
pub struct Lfsr16 {
    state: u16,
}

impl Lfsr16 {
    #[verifier::type_invariant]
    spec fn inv(self) -> bool {
        self.state != 0
    }

    /// The register.
    pub closed spec fn register(self) -> nat {
        self.state as nat
    }

    /// The general LFSR with the same register.
    fn as_lfsr(&self) -> (r: Lfsr)
        ensures
            r.polynomial() == 0x1002d,
            r.spec_width() == 16,
            !r.is_reflected(),
            r.register() == self.register(),
    {
        proof {
            use_type_invariant(self);
            lfsr16_facts();
        }
        Lfsr::new(0x1002d, false, self.state as u64)
    }

    /// Take the register of `l` back.
    fn set_from(&mut self, l: &Lfsr)
        requires
            l.polynomial() == 0x1002d,
            l.spec_width() == 16,
        ensures
            final(self).register() == l.register(),
    {
        proof {
            lfsr16_facts();
        }
        let s = l.register_value();
        self.state = s as u16;
    }

    /// An LFSR started from the non-zero `seed`.
    pub fn new(seed: u16) -> (r: Lfsr16)
        requires
            seed != 0,
        ensures
            r.register() == seed as nat,
    {
        Lfsr16 { state: seed }
    }

    /// The register, which is never zero.
    pub fn register_value(&self) -> (r: u16)
        ensures
            r as nat == self.register(),
            r != 0,
    {
        proof {
            use_type_invariant(self);
        }
        self.state
    }

    /// Step `bits` digits forward, returning the digits output.
    pub fn next(&mut self, bits: u32) -> (r: u16)
        requires
            bits <= 16,
        ensures
            final(self).register() == lfsr_state(old(self).register(), bits as nat, 0x1002d),
            r as nat == lfsr_output(old(self).register(), bits as nat, 0x1002d),
    {
        let mut l = self.as_lfsr();
        let r = l.next(bits);
        self.set_from(&l);
        proof {
            lfsr16_facts();
            lemma_output_bound(old(self).register(), bits as nat, 0x1002d, 16);
        }
        r as u16
    }

    /// Step `bits` digits backward, returning the digits that stepping
    /// forward again would output.
    pub fn prev(&mut self, bits: u32) -> (r: u16)
        requires
            bits <= 16,
        ensures
            lfsr_state(final(self).register(), bits as nat, 0x1002d) == old(self).register(),
            final(self).register() < exp2(16),
            r as nat == lfsr_output(final(self).register(), bits as nat, 0x1002d),
    {
        let mut l = self.as_lfsr();
        let r = l.prev(bits);
        self.set_from(&l);
        proof {
            lfsr16_facts();
            lemma_output_bound(self.register(), bits as nat, 0x1002d, 16);
        }
        r as u16
    }

    /// Jump `bits` digits forward.
    pub fn skip(&mut self, bits: u16)
        ensures
            final(self).register() == lfsr_state(old(self).register(), bits as nat, 0x1002d),
    {
        let mut l = self.as_lfsr();
        l.skip(bits as u64);
        self.set_from(&l);
    }

    /// Jump `bits` digits backward.
    pub fn skip_backwards(&mut self, bits: u16)
        ensures
            lfsr_state(final(self).register(), bits as nat, 0x1002d) == old(self).register(),
            final(self).register() < exp2(16),
    {
        let mut l = self.as_lfsr();
        l.skip_backwards(bits as u64);
        self.set_from(&l);
    }

    /// Fill `buf` with the bytes output by successive eight-digit steps.
    pub fn fill(&mut self, buf: &mut Vec<u8>)
        ensures
            final(self).register() == lfsr_state(old(self).register(), (8 * old(buf).len()) as nat, 0x1002d),
            final(buf).len() == old(buf).len(),
            forall|i: int| 0 <= i < final(buf).len() ==> final(buf)@[i] as nat
                == lfsr_bytes(old(self).register(), old(buf).len() as nat, 0x1002d, false)[i],
    {
        let mut l = self.as_lfsr();
        l.fill(buf);
        self.set_from(&l);
    }
}

proof fn lfsr16_facts()
    ensures
        lfsr_params_ok(0x1002d, 16),
        bitlen(0x1002d) == 17,
        exp2(16) == 0x10000,
        (0x1002d as nat) % 2 == 1,
{
    reveal_with_fuel(bitlen, 19);
    reveal_with_fuel(exp2, 19);
}

/// An LFSR with 32 digits of state and feedback polynomial `0x1000000af`.
pub struct Lfsr32 {
    state: u32,
}

impl Lfsr32 {
    #[verifier::type_invariant]
    spec fn inv(self) -> bool {
        self.state != 0
    }

    /// The register.
    pub closed spec fn register(self) -> nat {
        self.state as nat
    }

    /// The general LFSR with the same register.
    fn as_lfsr(&self) -> (r: Lfsr)
        ensures
            r.polynomial() == 0x1000000af,
            r.spec_width() == 32,
            !r.is_reflected(),
            r.register() == self.register(),
    {
        proof {
            use_type_invariant(self);
            lfsr32_facts();
        }
        Lfsr::new(0x1000000af, false, self.state as u64)
    }

    /// Take the register of `l` back.
    fn set_from(&mut self, l: &Lfsr)
        requires
            l.polynomial() == 0x1000000af,
            l.spec_width() == 32,
        ensures
            final(self).register() == l.register(),
    {
        proof {
            lfsr32_facts();
        }
        let s = l.register_value();
        self.state = s as u32;
    }

    /// An LFSR started from the non-zero `seed`.
    pub fn new(seed: u32) -> (r: Lfsr32)
        requires
            seed != 0,
        ensures
            r.register() == seed as nat,
    {
        Lfsr32 { state: seed }
    }

    /// The register, which is never zero.
    pub fn register_value(&self) -> (r: u32)
        ensures
            r as nat == self.register(),
            r != 0,
    {
        proof {
            use_type_invariant(self);
        }
        self.state
    }

    /// Step `bits` digits forward, returning the digits output.
    pub fn next(&mut self, bits: u32) -> (r: u32)
        requires
            bits <= 32,
        ensures
            final(self).register() == lfsr_state(old(self).register(), bits as nat, 0x1000000af),
            r as nat == lfsr_output(old(self).register(), bits as nat, 0x1000000af),
    {
        let mut l = self.as_lfsr();
        let r = l.next(bits);
        self.set_from(&l);
        proof {
            lfsr32_facts();
            lemma_output_bound(old(self).register(), bits as nat, 0x1000000af, 32);
        }
        r as u32
    }

    /// Step `bits` digits backward, returning the digits that stepping
    /// forward again would output.
    pub fn prev(&mut self, bits: u32) -> (r: u32)
        requires
            bits <= 32,
        ensures
            lfsr_state(final(self).register(), bits as nat, 0x1000000af) == old(self).register(),
            final(self).register() < exp2(32),
            r as nat == lfsr_output(final(self).register(), bits as nat, 0x1000000af),
    {
        let mut l = self.as_lfsr();
        let r = l.prev(bits);
        self.set_from(&l);
        proof {
            lfsr32_facts();
            lemma_output_bound(self.register(), bits as nat, 0x1000000af, 32);
        }
        r as u32
    }

    /// Jump `bits` digits forward.
    pub fn skip(&mut self, bits: u32)
        ensures
            final(self).register() == lfsr_state(old(self).register(), bits as nat, 0x1000000af),
    {
        let mut l = self.as_lfsr();
        l.skip(bits as u64);
        self.set_from(&l);
    }

    /// Jump `bits` digits backward.
    pub fn skip_backwards(&mut self, bits: u32)
        ensures
            lfsr_state(final(self).register(), bits as nat, 0x1000000af) == old(self).register(),
            final(self).register() < exp2(32),
    {
        let mut l = self.as_lfsr();
        l.skip_backwards(bits as u64);
        self.set_from(&l);
    }

    /// Fill `buf` with the bytes output by successive eight-digit steps.
    pub fn fill(&mut self, buf: &mut Vec<u8>)
        ensures
            final(self).register() == lfsr_state(old(self).register(), (8 * old(buf).len()) as nat, 0x1000000af),
            final(buf).len() == old(buf).len(),
            forall|i: int| 0 <= i < final(buf).len() ==> final(buf)@[i] as nat
                == lfsr_bytes(old(self).register(), old(buf).len() as nat, 0x1000000af, false)[i],
    {
        let mut l = self.as_lfsr();
        l.fill(buf);
        self.set_from(&l);
    }
}

proof fn lfsr32_facts()
    ensures
        lfsr_params_ok(0x1000000af, 32),
        bitlen(0x1000000af) == 33,
        exp2(32) == 0x100000000,
        (0x1000000af as nat) % 2 == 1,
{
    reveal_with_fuel(bitlen, 35);
    reveal_with_fuel(exp2, 35);
}

/// An LFSR with 64 digits of state and feedback polynomial `0x1000000000000001b`.
pub struct Lfsr64 {
    state: u64,
}

impl Lfsr64 {
    #[verifier::type_invariant]
    spec fn inv(self) -> bool {
        self.state != 0
    }

    /// The register.
    pub closed spec fn register(self) -> nat {
        self.state as nat
    }

    /// The general LFSR with the same register.
    fn as_lfsr(&self) -> (r: Lfsr)
        ensures
            r.polynomial() == 0x1000000000000001b,
            r.spec_width() == 64,
            !r.is_reflected(),
            r.register() == self.register(),
    {
        proof {
            use_type_invariant(self);
            lfsr64_facts();
        }
        Lfsr::new(0x1000000000000001b, false, self.state as u64)
    }

    /// Take the register of `l` back.
    fn set_from(&mut self, l: &Lfsr)
        requires
            l.polynomial() == 0x1000000000000001b,
            l.spec_width() == 64,
        ensures
            final(self).register() == l.register(),
    {
        proof {
            lfsr64_facts();
        }
        let s = l.register_value();
        self.state = s as u64;
    }

    /// An LFSR started from the non-zero `seed`.
    pub fn new(seed: u64) -> (r: Lfsr64)
        requires
            seed != 0,
        ensures
            r.register() == seed as nat,
    {
        Lfsr64 { state: seed }
    }

    /// The register, which is never zero.
    pub fn register_value(&self) -> (r: u64)
        ensures
            r as nat == self.register(),
            r != 0,
    {
        proof {
            use_type_invariant(self);
        }
        self.state
    }

    /// Step `bits` digits forward, returning the digits output.
    pub fn next(&mut self, bits: u32) -> (r: u64)
        requires
            bits <= 64,
        ensures
            final(self).register() == lfsr_state(old(self).register(), bits as nat, 0x1000000000000001b),
            r as nat == lfsr_output(old(self).register(), bits as nat, 0x1000000000000001b),
    {
        let mut l = self.as_lfsr();
        let r = l.next(bits);
        self.set_from(&l);
        proof {
            lfsr64_facts();
            lemma_output_bound(old(self).register(), bits as nat, 0x1000000000000001b, 64);
        }
        r as u64
    }

    /// Step `bits` digits backward, returning the digits that stepping
    /// forward again would output.
    pub fn prev(&mut self, bits: u32) -> (r: u64)
        requires
            bits <= 64,
        ensures
            lfsr_state(final(self).register(), bits as nat, 0x1000000000000001b) == old(self).register(),
            final(self).register() < exp2(64),
            r as nat == lfsr_output(final(self).register(), bits as nat, 0x1000000000000001b),
    {
        let mut l = self.as_lfsr();
        let r = l.prev(bits);
        self.set_from(&l);
        proof {
            lfsr64_facts();
            lemma_output_bound(self.register(), bits as nat, 0x1000000000000001b, 64);
        }
        r as u64
    }

    /// Jump `bits` digits forward.
    pub fn skip(&mut self, bits: u64)
        ensures
            final(self).register() == lfsr_state(old(self).register(), bits as nat, 0x1000000000000001b),
    {
        let mut l = self.as_lfsr();
        l.skip(bits as u64);
        self.set_from(&l);
    }

    /// Jump `bits` digits backward.
    pub fn skip_backwards(&mut self, bits: u64)
        ensures
            lfsr_state(final(self).register(), bits as nat, 0x1000000000000001b) == old(self).register(),
            final(self).register() < exp2(64),
    {
        let mut l = self.as_lfsr();
        l.skip_backwards(bits as u64);
        self.set_from(&l);
    }

    /// Fill `buf` with the bytes output by successive eight-digit steps.
    pub fn fill(&mut self, buf: &mut Vec<u8>)
        ensures
            final(self).register() == lfsr_state(old(self).register(), (8 * old(buf).len()) as nat, 0x1000000000000001b),
            final(buf).len() == old(buf).len(),
            forall|i: int| 0 <= i < final(buf).len() ==> final(buf)@[i] as nat
                == lfsr_bytes(old(self).register(), old(buf).len() as nat, 0x1000000000000001b, false)[i],
    {
        let mut l = self.as_lfsr();
        l.fill(buf);
        self.set_from(&l);
    }
}

proof fn lfsr64_facts()
    ensures
        lfsr_params_ok(0x1000000000000001b, 64),
        bitlen(0x1000000000000001b) == 65,
        exp2(64) == 0x10000000000000000,
        (0x1000000000000001b as nat) % 2 == 1,
{
    crate::bits::lemma_exp2_values();
    assert(exp2(65) == 2 * exp2(64));
    crate::poly::lemma_bitlen_exact(0x1000000000000001b, 65);
}

proof fn lemma_rev_zero(n: nat)
    ensures
        rev(0, n) == 0,
    decreases n,
{
    if n > 0 {
        lemma_rev_zero((n - 1) as nat);
        assert((0nat % 2) * exp2((n - 1) as nat) == 0);
    }
}

} // verus!
