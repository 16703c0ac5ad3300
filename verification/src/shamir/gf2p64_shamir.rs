//! Shamir's secret sharing over the field `GF(2^64)` defined by `0x1000000000000001b`, one element in each `u64`.

use vstd::prelude::*;
use crate::poly::{exp2, bitlen};
use crate::raid::{FieldParams, Word, block_ok};
use crate::shamir::{threshold, share_poly, share_xs, share_ys, interpolate, shared_by, pick, lemma_shares_give_secret};

verus! {

/// The field of the scheme.
fn field() -> (f: FieldParams)
    ensures
        f.poly == 0x1000000000000001b,
        f.width == 64,
        f.generator == 0x2,
        f.wf(),
        exp2(64) == 0x10000000000000000,
{
    proof {
        crate::bits::lemma_exp2_values();
        assert(exp2(65) == 2 * exp2(64));
        crate::poly::lemma_bitlen_exact(0x1000000000000001b, 65);
    }
    FieldParams { poly: 0x1000000000000001b, width: 64, generator: 0x2 }
}

/// Split `secret` into `n` shares, any `k` of which give it back. Share `i`
/// holds `x = i + 1` and then, for each word of the secret, the value at `x`
/// of a polynomial of degree `k - 1` whose constant term is that word and
/// whose other coefficients are random and non-zero; a `k` of `0` is
/// taken as `1`.
pub fn generate(secret: &[u64], n: usize, k: usize) -> (shares: Vec<Vec<u64>>)
    requires
        n <= 0xffffffffffffffff,
        k < usize::MAX,
        block_ok(secret@, 64),
    ensures
        shares@.len() == n,
        forall|i: int| 0 <= i < n ==> (#[trigger] shares@[i])@.len() == secret@.len() + 1,
        forall|i: int| 0 <= i < n ==> (#[trigger] shares@[i])@[0] as nat == i + 1,
        exists|cs: Seq<Seq<nat>>| #[trigger] shared_by(shares@, secret@, cs, n as nat, threshold(k), 0x1000000000000001b, 64),
{
    let f = field();
    crate::shamir::generate(secret, n, k, &f)
}

/// Split `secret` into `n` shares with the given further coefficients:
/// share `i` holds `x = i + 1` and then, for each word `b`, the value at `x`
/// of the polynomial with constant term `secret[b]` followed by
/// `coeffs[b]`. With `k - 1` random non-zero coefficients per word this is
/// what `generate` does.
pub fn generate_with(secret: &[u64], n: usize, coeffs: &[Vec<u64>]) -> (shares: Vec<Vec<u64>>)
    requires
        n <= 0xffffffffffffffff,
        block_ok(secret@, 64),
        coeffs@.len() == secret@.len(),
        forall|b: int| 0 <= b < coeffs@.len() ==> block_ok((#[trigger] coeffs@[b])@, 64),
        forall|b: int| 0 <= b < coeffs@.len() ==> (#[trigger] coeffs@[b])@.len() < usize::MAX,
    ensures
        shares@.len() == n,
        forall|i: int| 0 <= i < n ==> (#[trigger] shares@[i])@.len() == secret@.len() + 1,
        forall|i: int| 0 <= i < n ==> (#[trigger] shares@[i])@[0] as nat == i + 1,
        forall|i: int, b: int| 0 <= i < n && 0 <= b < secret@.len()
            ==> (#[trigger] shares@[i]@[b + 1]) as nat
                == crate::shamir::peval(share_poly(secret@[b], coeffs@[b]@), (i + 1) as nat, 0x1000000000000001b),
{
    let f = field();
    crate::shamir::generate_with(secret, n, coeffs, &f)
}

/// The secret that `shares` give: for each word, the value at zero of the
/// polynomial through the points the shares hold.
pub fn reconstruct(shares: &[Vec<u64>]) -> (secret: Vec<u64>)
    requires
        forall|j: int| 0 <= j < shares@.len() ==> (#[trigger] shares@[j])@.len() == shares@[0]@.len(),
        forall|j: int| 0 <= j < shares@.len() ==> block_ok((#[trigger] shares@[j])@, 64),
    ensures
        secret@.len() == (if shares@.len() == 0 || shares@[0]@.len() == 0 { 0 } else { shares@[0]@.len() - 1 }),
        forall|b: int| 0 <= b < secret@.len() ==> (#[trigger] secret@[b]) as nat
            == interpolate(share_xs(shares@), share_ys(shares@, b), shares@.len() as int, 0x1000000000000001b, 64),
{
    let f = field();
    crate::shamir::reconstruct(shares, &f)
}

/// Any `k` or more of the shares that `generate` made, taken at distinct
/// positions `idx`, give the secret back: for each word, the value at zero
/// that `reconstruct` computes from them is that word of the secret.
pub proof fn lemma_reconstruct_generate(
    shares: Seq<Vec<u64>>,
    secret: Seq<u64>,
    cs: Seq<Seq<nat>>,
    n: nat,
    k: nat,
    idx: Seq<int>,
)
    requires
        n <= 0xffffffffffffffff,
        shared_by(shares, secret, cs, n, k, 0x1000000000000001b, 64),
        forall|i: int| 0 <= i < n ==> (#[trigger] shares[i])@.len() == secret.len() + 1,
        forall|i: int| 0 <= i < n ==> (#[trigger] shares[i])@[0] as nat == i + 1,
        1 <= k <= idx.len(),
        forall|j: int| 0 <= j < idx.len() ==> 0 <= #[trigger] idx[j] < n,
        forall|j1: int, j2: int| 0 <= j1 < j2 < idx.len() ==> idx[j1] != idx[j2],
    ensures
        forall|b: int| 0 <= b < secret.len() ==> #[trigger] interpolate(share_xs(pick(shares, idx)), share_ys(pick(shares, idx), b), idx.len() as int, 0x1000000000000001b, 64)
            == secret[b] as nat,
{
    crate::order::lemma_gf2p64_field();
    crate::bits::lemma_exp2_values();
    assert(exp2(65) == 2 * exp2(64));
    crate::poly::lemma_bitlen_exact(0x1000000000000001b, 65);
    assert(block_ok(secret, 64)) by {
        assert forall|i: int| 0 <= i < secret.len() implies #[trigger] secret[i].nat_of() < exp2(64) by {}
    }
    assert forall|b: int| 0 <= b < secret.len() implies #[trigger] interpolate(share_xs(pick(shares, idx)), share_ys(pick(shares, idx), b), idx.len() as int, 0x1000000000000001b, 64)
        == secret[b] as nat by {
        lemma_shares_give_secret(shares, secret, cs, n, k, idx, b, 0x1000000000000001b, 64);
    }
}

} // verus!
