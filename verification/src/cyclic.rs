//! The multiplicative group of a field of binary polynomials. When a
//! generator `g` satisfies `g^n == 1` for `n == 2^w - 1` and `g^(n / q) != 1`
//! for every prime `q` of `n`, the powers of `g` run through every non-zero
//! element once, and every non-zero element `b` satisfies `b^n == 1`.

use vstd::prelude::*;
use vstd::arithmetic::div_mod::{lemma_fundamental_div_mod, lemma_fundamental_div_mod_converse};
use vstd::set_lib::{set_int_range, lemma_int_range, lemma_subset_equality};
use crate::poly::{
    exp2, bitlen, pmul, pmod, mulmod, powmod, lemma_exp2_pos, lemma_exp2_mono, lemma_bitlen_bound,
    lemma_pmod_small, lemma_pmul_zero, lemma_mulmod_assoc, lemma_mulmod_one, lemma_powmod_add,
    lemma_powmod_reduced,
};
use crate::field::{lemma_powmod_pow, lemma_powmod_of_one, lemma_power_of_generator};
use crate::raid::algebra::field_inverts;

verus! {

/// `p` is a prime number.
pub open spec fn is_prime(p: nat) -> bool {
    p >= 2 && forall|d: nat| 2 <= d < p ==> #[trigger] (p % d) != 0
}

/// The product of the numbers of `s`.
pub open spec fn prod(s: Seq<nat>) -> nat
    decreases s.len(),
{
    if s.len() == 0 {
        1
    } else {
        prod(s.drop_last()) * s.last()
    }
}

/// A multiple of `d` leaves no remainder, and the quotient is the factor.
proof fn lemma_multiple(x: nat, d: nat, t: nat)
    requires
        d > 0,
        x == d * t,
    ensures
        x % d == 0,
        x / d == t,
{
    assert(x == t * d + 0) by (nonlinear_arith)
        requires
            x == d * t,
    ;
    lemma_fundamental_div_mod_converse(x as int, d as int, t as int, 0);
}

/// Without remainder, `x` is `d` times the quotient.
proof fn lemma_exact(x: nat, d: nat)
    requires
        d > 0,
        x % d == 0,
    ensures
        x == d * (x / d),
{
    lemma_fundamental_div_mod(x as int, d as int);
}

/// Euclid's lemma for a factor below the prime: when `p` divides `a * b`
/// with `0 < a < p`, it divides `b`. The descent replaces `a` by `p % a`.
proof fn lemma_euclid_small(p: nat, a: nat, b: nat)
    requires
        is_prime(p),
        0 < a < p,
        (a * b) % p == 0,
    ensures
        b % p == 0,
    decreases a,
{
    if a == 1 {
        assert(a * b == b) by (nonlinear_arith)
            requires
                a == 1,
        ;
    } else {
        let r = p % a;
        assert(r != 0);
        lemma_fundamental_div_mod(p as int, a as int);
        let c = p / a;
        let k = (a * b) / p;
        lemma_exact(a * b, p);
        assert(r * b + c * k * p == p * b) by (nonlinear_arith)
            requires
                p == a * c + r,
                a * b == p * k,
        ;
        let t = (b - c * k) as nat;
        assert(c * k * p <= p * b) by (nonlinear_arith)
            requires
                r * b + c * k * p == p * b,
                r * b >= 0,
        ;
        assert(c * k <= b) by (nonlinear_arith)
            requires
                c * k * p <= p * b,
                p > 0,
        ;
        assert(r * b == p * t) by (nonlinear_arith)
            requires
                r * b + c * k * p == p * b,
                t == b - c * k,
        ;
        lemma_multiple(r * b, p, t);
        assert(r < a) by {
            vstd::arithmetic::div_mod::lemma_mod_bound(p as int, a as int);
        }
        lemma_euclid_small(p, r, b);
    }
}

/// Euclid's lemma: a prime that divides a product divides a factor.
pub proof fn lemma_euclid(p: nat, a: nat, b: nat)
    requires
        is_prime(p),
        (a * b) % p == 0,
    ensures
        a % p == 0 || b % p == 0,
{
    if a % p != 0 {
        let r = a % p;
        let c = a / p;
        lemma_fundamental_div_mod(a as int, p as int);
        vstd::arithmetic::div_mod::lemma_mod_bound(a as int, p as int);
        let k = (a * b) / p;
        lemma_exact(a * b, p);
        assert(r * b + c * b * p == p * k) by (nonlinear_arith)
            requires
                a == p * c + r,
                a * b == p * k,
        ;
        assert(c * b <= k) by (nonlinear_arith)
            requires
                r * b + c * b * p == p * k,
                r * b >= 0,
                p > 0,
        ;
        let t = (k - c * b) as nat;
        assert(r * b == p * t) by (nonlinear_arith)
            requires
                r * b + c * b * p == p * k,
                t == k - c * b,
        ;
        lemma_multiple(r * b, p, t);
        lemma_euclid_small(p, r, b);
    }
}

/// A positive multiple of `p` is at least `p`.
proof fn lemma_divisor_le(x: nat, p: nat)
    requires
        p > 0,
        x > 0,
        x % p == 0,
    ensures
        p <= x,
{
    if x < p {
        vstd::arithmetic::div_mod::lemma_small_mod(x, p);
    }
}

/// Divisibility is transitive.
proof fn lemma_divides_trans(n: nat, d: nat, p: nat)
    requires
        d > 0,
        p > 0,
        n % d == 0,
        d % p == 0,
    ensures
        n % p == 0,
{
    lemma_exact(n, d);
    lemma_exact(d, p);
    let t = (d / p) * (n / d);
    assert(n == p * t) by (nonlinear_arith)
        requires
            n == d * (n / d),
            d == p * (d / p),
            t == (d / p) * (n / d),
    ;
    lemma_multiple(n, p, t);
}

/// Every number from two on has a prime divisor.
pub proof fn lemma_prime_divisor(n: nat) -> (p: nat)
    requires
        n >= 2,
    ensures
        is_prime(p),
        n % p == 0,
    decreases n,
{
    if is_prime(n) {
        lemma_multiple(n, n, 1);
        n
    } else {
        let d = choose|d: nat| 2 <= d < n && #[trigger] (n % d) == 0;
        assert(2 <= d < n && n % d == 0);
        let p = lemma_prime_divisor(d);
        lemma_divides_trans(n, d, p);
        p
    }
}

/// A prime that divides a product of primes is one of them.
pub proof fn lemma_prime_of_product(p: nat, s: Seq<nat>) -> (i: int)
    requires
        is_prime(p),
        forall|j: int| 0 <= j < s.len() ==> is_prime(#[trigger] s[j]),
        prod(s) % p == 0,
    ensures
        0 <= i < s.len(),
        s[i] == p,
    decreases s.len(),
{
    if s.len() == 0 {
        vstd::arithmetic::div_mod::lemma_small_mod(1, p);
        assert(false);
        0
    } else {
        let t = s.drop_last();
        let l = s.last();
        assert(is_prime(s[s.len() - 1]));
        lemma_euclid(p, prod(t), l);
        if l % p == 0 {
            lemma_divisor_le(l, p);
            if p < l {
                assert(l % p != 0);
            }
            s.len() - 1
        } else {
            assert forall|j: int| 0 <= j < t.len() implies is_prime(#[trigger] t[j]) by {
                assert(t[j] == s[j]);
            }
            lemma_prime_of_product(p, t)
        }
    }
}

/// `g^(d * t) == 1` once `g^d == 1`.
proof fn lemma_one_power_mul(g: nat, d: nat, t: nat, m: nat, w: nat)
    requires
        bitlen(m) == w + 1,
        w >= 1,
        powmod(g, d, m) == 1,
    ensures
        powmod(g, d * t, m) == 1,
{
    lemma_exp2_pos(w);
    lemma_bitlen_bound(m);
    lemma_powmod_pow(g, d, t, m);
    lemma_powmod_of_one(t, m, w);
}

/// The exponents `k` with `g^k == 1` are closed under remainders.
proof fn lemma_one_power_mod(g: nat, a: nat, b: nat, m: nat, w: nat)
    requires
        bitlen(m) == w + 1,
        w >= 1,
        a > 0,
        powmod(g, a, m) == 1,
        powmod(g, b, m) == 1,
    ensures
        powmod(g, b % a, m) == 1,
{
    lemma_bitlen_bound(m);
    lemma_exp2_pos(w);
    lemma_fundamental_div_mod(b as int, a as int);
    let q = b / a;
    assert(b == a * q + b % a);
    lemma_powmod_add(g, a * q, b % a, m);
    lemma_one_power_mul(g, a, q, m, w);
    lemma_mulmod_one(powmod(g, b % a, m), m);
    lemma_powmod_reduced(g, b % a, m);
}

/// The greatest common divisor of two exponents `k` with `g^k == 1` is one
/// of them too.
proof fn lemma_gcd_power(g: nat, a: nat, b: nat, m: nat, w: nat) -> (d: nat)
    requires
        bitlen(m) == w + 1,
        w >= 1,
        a > 0,
        powmod(g, a, m) == 1,
        powmod(g, b, m) == 1,
    ensures
        0 < d <= a,
        powmod(g, d, m) == 1,
        a % d == 0,
        b % d == 0,
    decreases a,
{
    let r = b % a;
    lemma_one_power_mod(g, a, b, m, w);
    lemma_fundamental_div_mod(b as int, a as int);
    vstd::arithmetic::div_mod::lemma_mod_bound(b as int, a as int);
    if r == 0 {
        lemma_multiple(a, a, 1);
        a
    } else {
        let d = lemma_gcd_power(g, r, a, m, w);
        let q = b / a;
        lemma_exact(a, d);
        lemma_exact(r, d);
        let t = q * (a / d) + r / d;
        assert(b == d * t) by (nonlinear_arith)
            requires
                b == a * q + r,
                a == d * (a / d),
                r == d * (r / d),
                t == q * (a / d) + r / d,
        ;
        lemma_multiple(b, d, t);
        d
    }
}

/// The order of `g` from the prime factors of `n`: when `g^n == 1`, `n` is the
/// product of the primes `ps`, and `g^(n / q) != 1` for each of them, no
/// smaller positive power of `g` is one.
pub proof fn lemma_order(g: nat, m: nat, w: nat, n: nat, ps: Seq<nat>)
    requires
        bitlen(m) == w + 1,
        w >= 1,
        n == prod(ps),
        forall|i: int| 0 <= i < ps.len() ==> is_prime(#[trigger] ps[i]),
        powmod(g, n, m) == 1,
        forall|i: int| 0 <= i < ps.len() ==> #[trigger] powmod(g, n / ps[i], m) != 1,
    ensures
        forall|k: nat| 0 < k < n ==> #[trigger] powmod(g, k, m) != 1,
{
    assert forall|k: nat| 0 < k < n implies #[trigger] powmod(g, k, m) != 1 by {
        if powmod(g, k, m) == 1 {
            let d = lemma_gcd_power(g, k, n, m, w);
            lemma_exact(n, d);
            let t = n / d;
            if t < 2 {
                assert(n == d * t);
                assert(t == 0 || t == 1);
                if t == 0 {
                    assert(n == 0) by (nonlinear_arith)
                        requires
                            n == d * t,
                            t == 0,
                    ;
                } else {
                    assert(n == d) by (nonlinear_arith)
                        requires
                            n == d * t,
                            t == 1,
                    ;
                }
            }
            let p = lemma_prime_divisor(t);
            lemma_exact(t, p);
            let x = d * (t / p);
            assert(n == p * x) by (nonlinear_arith)
                requires
                    n == d * t,
                    t == p * (t / p),
                    x == d * (t / p),
            ;
            lemma_multiple(n, p, x);
            let i = lemma_prime_of_product(p, ps);
            lemma_one_power_mul(g, d, t / p, m, w);
            assert(powmod(g, n / ps[i], m) == 1);
        }
    }
}

/// Two different powers of `g` below `n` differ: multiplying both by the
/// power that completes the smaller one to `g^n == 1` leaves `1` and a
/// power of `g` strictly between `0` and `n`.
proof fn lemma_powers_distinct(g: nat, m: nat, w: nat, n: nat, i: nat, j: nat)
    requires
        bitlen(m) == w + 1,
        w >= 1,
        powmod(g, n, m) == 1,
        forall|k: nat| 0 < k < n ==> #[trigger] powmod(g, k, m) != 1,
        i < j < n,
    ensures
        powmod(g, i, m) != powmod(g, j, m),
{
    lemma_bitlen_bound(m);
    lemma_exp2_pos(w);
    let u = powmod(g, (n - i) as nat, m);
    let pi = powmod(g, i, m);
    let pd = powmod(g, (j - i) as nat, m);
    lemma_powmod_add(g, (n - i) as nat, i, m);
    assert((n - i) as nat + i == n);
    lemma_powmod_add(g, i, (j - i) as nat, m);
    assert(i + (j - i) as nat == j);
    lemma_mulmod_assoc(u, pi, pd, m);
    lemma_mulmod_one(pd, m);
    lemma_powmod_reduced(g, (j - i) as nat, m);
    if pi == powmod(g, j, m) {
        assert(pd == 1);
        assert(powmod(g, (j - i) as nat, m) != 1);
    }
}

/// `b` is one of the powers `g^k` with `k < n`.
pub open spec fn is_power(g: nat, b: nat, m: nat, n: nat) -> bool {
    exists|k: nat| k < n && #[trigger] powmod(g, k, m) == b
}

/// A generator of order `2^w - 1`: its powers below `2^w - 1` are non-zero
/// and distinct, they are all the non-zero elements, and so every non-zero
/// element `b` satisfies `b^(2^w - 1) == 1`.
pub proof fn lemma_generator_covers(g: nat, m: nat, w: nat)
    requires
        bitlen(m) == w + 1,
        w >= 1,
        powmod(g, (exp2(w) - 1) as nat, m) == 1,
        forall|k: nat| 0 < k < exp2(w) - 1 ==> #[trigger] powmod(g, k, m) != 1,
    ensures
        forall|x: nat| x < exp2(w) - 1 ==> #[trigger] powmod(g, x, m) != 0,
        forall|x: nat, y: nat| x < exp2(w) - 1 && y < exp2(w) - 1 && x != y
            ==> #[trigger] powmod(g, x, m) != #[trigger] powmod(g, y, m),
        forall|b: nat| 0 < b < exp2(w) ==> #[trigger] is_power(g, b, m, (exp2(w) - 1) as nat),
        field_inverts(m, w),
{
    lemma_exp2_pos(w);
    lemma_exp2_mono(1, w);
    assert(exp2(1) == 2 * exp2(0));
    let n: nat = (exp2(w) - 1) as nat;
    assert forall|x: nat| x < n implies #[trigger] powmod(g, x, m) != 0 by {
        lemma_nonzero_last(g, m, w, n, x);
    }
    assert forall|x: nat, y: nat| x < n && y < n && x != y
        implies #[trigger] powmod(g, x, m) != #[trigger] powmod(g, y, m) by {
        if x < y {
            lemma_powers_distinct(g, m, w, n, x, y);
        } else {
            lemma_powers_distinct(g, m, w, n, y, x);
        }
    }
    let s = Seq::new(n, |i: int| powmod(g, i as nat, m) as int);
    assert(s.no_duplicates()) by {
        assert forall|a: int, b: int| 0 <= a < s.len() && 0 <= b < s.len() && a != b
            implies s[a] != s[b] by {
            assert(powmod(g, a as nat, m) != powmod(g, b as nat, m));
        }
    }
    s.unique_seq_to_set();
    let full = set_int_range(1, exp2(w) as int);
    lemma_int_range(1, exp2(w) as int);
    assert(s.to_set().subset_of(full)) by {
        assert forall|v: int| s.to_set().contains(v) implies full.contains(v) by {
            assert(s.contains(v));
            let i = choose|i: int| 0 <= i < s.len() && s[i] == v;
            let x = powmod(g, i as nat, m);
            assert(x != 0);
            lemma_powmod_reduced(g, i as nat, m);
            lemma_bitlen_bound(x);
            lemma_exp2_mono(bitlen(x), w);
        }
    }
    lemma_subset_equality(s.to_set(), full);
    assert forall|b: nat| 0 < b < exp2(w) implies #[trigger] powmod(b, (exp2(w) - 1) as nat, m) == 1 by {
        assert(full.contains(b as int));
        assert(s.to_set().contains(b as int));
        assert(s.contains(b as int));
        let i = choose|i: int| 0 <= i < s.len() && s[i] == b as int;
        assert(powmod(g, i as nat, m) == b);
        lemma_power_of_generator(g, i as nat, n, m, w);
    }
    assert forall|b: nat| 0 < b < exp2(w) implies #[trigger] is_power(g, b, m, n) by {
        assert(full.contains(b as int));
        assert(s.to_set().contains(b as int));
        assert(s.contains(b as int));
        let i = choose|i: int| 0 <= i < s.len() && s[i] == b as int;
        assert(powmod(g, i as nat, m) == b);
    }
}

/// No power of `g` is zero: times the complementary power it gives
/// `g^n == 1`.
proof fn lemma_nonzero_last(g: nat, m: nat, w: nat, n: nat, x: nat)
    requires
        bitlen(m) == w + 1,
        w >= 1,
        powmod(g, n, m) == 1,
        x < n,
    ensures
        powmod(g, x, m) != 0,
{
    lemma_bitlen_bound(m);
    lemma_exp2_pos(w);
    let u = powmod(g, (n - x) as nat, m);
    lemma_powmod_add(g, (n - x) as nat, x, m);
    assert((n - x) as nat + x == n);
    if powmod(g, x, m) == 0 {
        lemma_pmul_zero(u);
        lemma_pmod_small(0, m);
        assert(mulmod(u, powmod(g, x, m), m) == 0);
    }
}

} // verus!
