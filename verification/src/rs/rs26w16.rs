//! Reed-Solomon codewords of up to 26 bytes, 10 of them for error correction, over the field `GF(2^8)` defined by `0x11d`.

use vstd::prelude::*;
use crate::poly::{exp2, bitlen};
use crate::raid::{FieldParams, Word, words, block_ok};
use crate::rs::{exactly_changed, is_codeword, synth_div, zero_tail, generator_poly, changed_only_at, lemma_repair_restores, lemma_changes_compose};
pub use crate::rs::RsError as Error;

verus! {

/// The largest codeword, in words.
pub const BLOCK_SIZE: usize = 26;

/// The largest message, in words.
pub const DATA_SIZE: usize = 16;

/// The words of error correction at the end of each codeword.
pub const ECC_SIZE: usize = 10;

/// The field of the code.
fn field() -> (f: FieldParams)
    ensures
        f.poly == 0x11d,
        f.width == 8,
        f.generator == 0x2,
        f.wf(),
        exp2(8) == 0x100,
{
    assert(bitlen(0x11d) == 9) by {
        reveal_with_fuel(bitlen, 11);
    }
    assert(exp2(8) == 0x100) by {
        reveal_with_fuel(exp2, 10);
    }
    FieldParams { poly: 0x11d, width: 8, generator: 0x2 }
}

/// Fill the last `ECC_SIZE` words of `message` so that it becomes a
/// codeword; the data is in the words before them.
pub fn encode(message: &mut [u8])
    requires
        ECC_SIZE <= old(message)@.len() <= BLOCK_SIZE,
    ensures
        final(message)@.len() == old(message)@.len(),
        forall|i: int| 0 <= i < old(message)@.len() - 10 ==> #[trigger] final(message)@[i] == old(message)@[i],
        forall|i: int| old(message)@.len() - 10 <= i < old(message)@.len() ==> (#[trigger] final(message)@[i]) as nat
            == synth_div(
                zero_tail(words(old(message)@), (old(message)@.len() - 10) as nat),
                generator_poly(10, 0x2, 0x11d),
                (old(message)@.len() - 10) as nat,
                0x11d,
            )[i],
        is_codeword(words(final(message)@), 10, 0x2, 0x11d),
{
    let f = field();
    assert(block_ok(message@, 8)) by {
        assert forall|i: int| 0 <= i < message@.len() implies #[trigger] message@[i].nat_of() < exp2(8) by {}
    }
    crate::rs::encode(message, ECC_SIZE, &f);
}

/// Whether `codeword` is a codeword: whether all its syndromes are zero.
pub fn is_correct(codeword: &[u8]) -> (r: bool)
    ensures
        r == is_codeword(words(codeword@), 10, 0x2, 0x11d),
{
    let f = field();
    assert(block_ok(codeword@, 8)) by {
        assert forall|i: int| 0 <= i < codeword@.len() implies #[trigger] codeword@[i].nat_of() < exp2(8) by {}
    }
    crate::rs::is_correct(codeword, ECC_SIZE, &f)
}

/// Repair the words at the positions listed in `erasures`; at most
/// `ECC_SIZE` of them can be repaired. Returns how many words were
/// repaired, `0` when `codeword` was already a codeword. When the damage
/// lies only at distinct listed positions, the codeword that was sent
/// comes back.
pub fn correct_erasures(codeword: &mut [u8], erasures: &[usize]) -> (r: Result<usize, Error>)
    requires
        old(codeword)@.len() <= BLOCK_SIZE,
        forall|t: int| 0 <= t < erasures@.len() ==> #[trigger] erasures@[t] < old(codeword)@.len(),
    ensures
        final(codeword)@.len() == old(codeword)@.len(),
        changed_only_at(old(codeword)@, final(codeword)@, erasures@),
        erasures@.len() > 10 ==> r == Err::<usize, Error>(Error::TooManyErrors) && final(codeword)@ == old(codeword)@,
        erasures@.len() <= 10 && is_codeword(words(old(codeword)@), 10, 0x2, 0x11d)
            ==> r == Ok::<usize, Error>(0) && final(codeword)@ == old(codeword)@,
        r is Ok <==> erasures@.len() <= 10 && is_codeword(words(final(codeword)@), 10, 0x2, 0x11d),
        r matches Ok(n) ==> n == erasures@.len() || (n == 0 && final(codeword)@ == old(codeword)@),
        erasures@.len() <= 10
            && (forall|a: int, b: int| 0 <= a < b < erasures@.len() ==> erasures@[a] != erasures@[b])
            ==> forall|sent: Seq<u8>| #[trigger] changed_only_at(sent, old(codeword)@, erasures@)
                && is_codeword(words(sent), 10, 0x2, 0x11d)
                ==> r is Ok && final(codeword)@ == sent,
{
    let f = field();
    assert(block_ok(codeword@, 8)) by {
        assert forall|i: int| 0 <= i < codeword@.len() implies #[trigger] codeword@[i].nat_of() < exp2(8) by {}
    }
    let ghost before = codeword@;
    proof {
        crate::rs::lemma_gf256_rs_facts(codeword@.len());
    }
    let r = crate::rs::correct_erasures(codeword, erasures, ECC_SIZE, &f);
    proof {
        if erasures@.len() <= 10 && (forall|a: int, b: int| 0 <= a < b < erasures@.len() ==> erasures@[a] != erasures@[b]) {
            assert(crate::rs::distance::rs_field_facts(0x2, 0x11d, 8, before.len()));
            assert forall|sent: Seq<u8>| #[trigger] changed_only_at(sent, before, erasures@)
                && is_codeword(words(sent), 10, 0x2, 0x11d)
                implies r is Ok && codeword@ == sent by {
                assert(block_ok(sent, 8)) by {
                    assert forall|i: int| 0 <= i < sent.len() implies #[trigger] sent[i].nat_of() < exp2(8) by {}
                }
                assert forall|i: int| 0 <= i < sent.len() implies codeword@[i] == sent[i] by {
                    assert(words(codeword@)[i] == words(sent)[i]);
                }
                assert(codeword@ =~= sent);
            }
        }
    }
    r
}

/// Find and repair up to `ECC_SIZE / 2` words at unknown positions.
/// Returns how many words were repaired, `0` when `codeword` was already
/// a codeword. A codeword received with changes at no more than
/// `ECC_SIZE / 2` positions comes back whole.
pub fn correct_errors(codeword: &mut [u8]) -> (r: Result<usize, Error>)
    requires
        old(codeword)@.len() <= BLOCK_SIZE,
    ensures
        final(codeword)@.len() == old(codeword)@.len(),
        is_codeword(words(old(codeword)@), 10, 0x2, 0x11d)
            ==> r == Ok::<usize, Error>(0) && final(codeword)@ == old(codeword)@,
        r is Ok <==> is_codeword(words(final(codeword)@), 10, 0x2, 0x11d),
        r matches Ok(n) ==> exists|locs: Seq<usize>| #[trigger] changed_only_at(old(codeword)@, final(codeword)@, locs)
            && locs.len() == n,
        r matches Ok(n) ==> 2 * n <= 10,
        forall|sent: Seq<u8>, locs: Seq<usize>| #[trigger] changed_only_at(sent, old(codeword)@, locs)
                && 2 * locs.len() <= 10
                && is_codeword(words(sent), 10, 0x2, 0x11d)
                ==> r is Ok && final(codeword)@ == sent,
        forall|sent: Seq<u8>, locs: Seq<usize>| #[trigger] changed_only_at(sent, old(codeword)@, locs)
                && 2 * locs.len() <= 10
                && exactly_changed(sent, old(codeword)@, locs)
                && is_codeword(words(sent), 10, 0x2, 0x11d)
                ==> (r matches Ok(n) && n == locs.len()),
{
    let f = field();
    assert(block_ok(codeword@, 8)) by {
        assert forall|i: int| 0 <= i < codeword@.len() implies #[trigger] codeword@[i].nat_of() < exp2(8) by {}
    }
    let ghost before = codeword@;
    proof {
        crate::rs::lemma_gf256_rs_facts(codeword@.len());
    }
    let r = crate::rs::correct_errors(codeword, ECC_SIZE, &f);
    proof {
        {
            assert(crate::rs::distance::rs_field_facts(0x2, 0x11d, 8, before.len()));
            assert forall|sent: Seq<u8>, locs: Seq<usize>| #[trigger] changed_only_at(sent, before, locs)
                && 2 * locs.len() <= 10
                && is_codeword(words(sent), 10, 0x2, 0x11d)
                implies r is Ok && codeword@ == sent by {
                assert(block_ok(sent, 8)) by {
                    assert forall|i: int| 0 <= i < sent.len() implies #[trigger] sent[i].nat_of() < exp2(8) by {}
                }
                assert forall|i: int| 0 <= i < sent.len() implies codeword@[i] == sent[i] by {
                    assert(words(codeword@)[i] == words(sent)[i]);
                }
                assert(codeword@ =~= sent);
            }
        }
        {
            assert(crate::rs::distance::rs_field_facts(0x2, 0x11d, 8, before.len()));
            assert forall|sent: Seq<u8>, locs: Seq<usize>| #[trigger] changed_only_at(sent, before, locs)
                && 2 * locs.len() <= 10
                && exactly_changed(sent, before, locs)
                && is_codeword(words(sent), 10, 0x2, 0x11d)
                implies (r matches Ok(n) && n == locs.len()) by {
                assert(block_ok(sent, 8)) by {
                    assert forall|i: int| 0 <= i < sent.len() implies #[trigger] sent[i].nat_of() < exp2(8) by {}
                }
            }
        }
    }
    r
}

/// Repair the words at the positions listed in `erasures` and find and
/// repair words at unknown positions, as long as twice the unknown ones
/// plus the listed ones are at most `ECC_SIZE`. Returns how many words
/// were repaired, `0` when `codeword` was already a codeword. When the
/// damage lies at distinct listed positions and at other positions, with
/// twice the others plus the listed ones at most `ECC_SIZE`, the codeword
/// that was sent comes back.
pub fn correct(codeword: &mut [u8], erasures: &[usize]) -> (r: Result<usize, Error>)
    requires
        old(codeword)@.len() <= BLOCK_SIZE,
        forall|t: int| 0 <= t < erasures@.len() ==> #[trigger] erasures@[t] < old(codeword)@.len(),
    ensures
        final(codeword)@.len() == old(codeword)@.len(),
        erasures@.len() > 10 ==> r == Err::<usize, Error>(Error::TooManyErrors) && final(codeword)@ == old(codeword)@,
        erasures@.len() <= 10 && is_codeword(words(old(codeword)@), 10, 0x2, 0x11d)
            ==> r == Ok::<usize, Error>(0) && final(codeword)@ == old(codeword)@,
        r is Ok <==> erasures@.len() <= 10 && is_codeword(words(final(codeword)@), 10, 0x2, 0x11d),
        r matches Ok(n) ==> exists|locs: Seq<usize>| #[trigger] changed_only_at(old(codeword)@, final(codeword)@, locs)
            && locs.len() == n && (n == 0 || erasures@.len() <= n),
        r matches Ok(n) ==> 2 * n <= 10 + erasures@.len(),
        erasures@.len() <= 10
            && (forall|a: int, b: int| 0 <= a < b < erasures@.len() ==> erasures@[a] != erasures@[b])
            ==> forall|sent: Seq<u8>| #[trigger] changed_only_at(sent, old(codeword)@, erasures@)
                && is_codeword(words(sent), 10, 0x2, 0x11d)
                ==> r is Ok && final(codeword)@ == sent,
        (forall|a: int, b: int| 0 <= a < b < erasures@.len() ==> erasures@[a] != erasures@[b])
            ==> forall|sent: Seq<u8>, errs: Seq<usize>| #[trigger] changed_only_at(sent, old(codeword)@, erasures@ + errs)
                && 2 * errs.len() + erasures@.len() <= 10
                && is_codeword(words(sent), 10, 0x2, 0x11d)
                ==> r is Ok && final(codeword)@ == sent,
        forall|sent: Seq<u8>, errs: Seq<usize>| #[trigger] changed_only_at(sent, old(codeword)@, erasures@ + errs)
                && 2 * errs.len() + erasures@.len() <= 10
                && exactly_changed(sent, old(codeword)@, erasures@ + errs)
                && is_codeword(words(sent), 10, 0x2, 0x11d)
                ==> (r matches Ok(n) && n == erasures@.len() + errs.len()),
        (forall|a: int, b: int| 0 <= a < b < erasures@.len() ==> erasures@[a] != erasures@[b])
            && !is_codeword(words(old(codeword)@), 10, 0x2, 0x11d)
            ==> forall|sent: Seq<u8>, errs: Seq<usize>| #[trigger] changed_only_at(sent, old(codeword)@, erasures@ + errs)
                && 2 * errs.len() + erasures@.len() <= 10
                && exactly_changed(sent, old(codeword)@, errs)
                && (forall|t: int| 0 <= t < errs.len() ==> !erasures@.contains(#[trigger] errs[t]))
                && is_codeword(words(sent), 10, 0x2, 0x11d)
                ==> (r matches Ok(n) && n == erasures@.len() + errs.len()),
{
    let f = field();
    assert(block_ok(codeword@, 8)) by {
        assert forall|i: int| 0 <= i < codeword@.len() implies #[trigger] codeword@[i].nat_of() < exp2(8) by {}
    }
    let ghost before = codeword@;
    proof {
        crate::rs::lemma_gf256_rs_facts(codeword@.len());
    }
    let r = crate::rs::correct(codeword, erasures, ECC_SIZE, &f);
    proof {
        if erasures@.len() <= 10 && (forall|a: int, b: int| 0 <= a < b < erasures@.len() ==> erasures@[a] != erasures@[b]) {
            assert(crate::rs::distance::rs_field_facts(0x2, 0x11d, 8, before.len()));
            assert forall|sent: Seq<u8>| #[trigger] changed_only_at(sent, before, erasures@)
                && is_codeword(words(sent), 10, 0x2, 0x11d)
                implies r is Ok && codeword@ == sent by {
                assert(block_ok(sent, 8)) by {
                    assert forall|i: int| 0 <= i < sent.len() implies #[trigger] sent[i].nat_of() < exp2(8) by {}
                }
                assert forall|i: int| 0 <= i < sent.len() implies codeword@[i] == sent[i] by {
                    assert(words(codeword@)[i] == words(sent)[i]);
                }
                assert(codeword@ =~= sent);
            }
        }
        if (forall|a: int, b: int| 0 <= a < b < erasures@.len() ==> erasures@[a] != erasures@[b]) {
            assert(crate::rs::distance::rs_field_facts(0x2, 0x11d, 8, before.len()));
            assert forall|sent: Seq<u8>, errs: Seq<usize>| #[trigger] changed_only_at(sent, before, erasures@ + errs)
                && 2 * errs.len() + erasures@.len() <= 10
                && is_codeword(words(sent), 10, 0x2, 0x11d)
                implies r is Ok && codeword@ == sent by {
                assert(block_ok(sent, 8)) by {
                    assert forall|i: int| 0 <= i < sent.len() implies #[trigger] sent[i].nat_of() < exp2(8) by {}
                }
                assert forall|i: int| 0 <= i < sent.len() implies codeword@[i] == sent[i] by {
                    assert(words(codeword@)[i] == words(sent)[i]);
                }
                assert(codeword@ =~= sent);
            }
        }
        {
            assert(crate::rs::distance::rs_field_facts(0x2, 0x11d, 8, before.len()));
            assert forall|sent: Seq<u8>, errs: Seq<usize>| #[trigger] changed_only_at(sent, before, erasures@ + errs)
                && 2 * errs.len() + erasures@.len() <= 10
                && exactly_changed(sent, before, erasures@ + errs)
                && is_codeword(words(sent), 10, 0x2, 0x11d)
                implies (r matches Ok(n) && n == erasures@.len() + errs.len()) by {
                assert(block_ok(sent, 8)) by {
                    assert forall|i: int| 0 <= i < sent.len() implies #[trigger] sent[i].nat_of() < exp2(8) by {}
                }
            }
        }
        if (forall|a: int, b: int| 0 <= a < b < erasures@.len() ==> erasures@[a] != erasures@[b]) && !is_codeword(words(before), 10, 0x2, 0x11d) {
            assert(crate::rs::distance::rs_field_facts(0x2, 0x11d, 8, before.len()));
            assert forall|sent: Seq<u8>, errs: Seq<usize>| #[trigger] changed_only_at(sent, before, erasures@ + errs)
                && 2 * errs.len() + erasures@.len() <= 10
                && exactly_changed(sent, before, errs)
                && (forall|t: int| 0 <= t < errs.len() ==> !erasures@.contains(#[trigger] errs[t]))
                && is_codeword(words(sent), 10, 0x2, 0x11d)
                implies (r matches Ok(n) && n == erasures@.len() + errs.len()) by {
                assert(block_ok(sent, 8)) by {
                    assert forall|i: int| 0 <= i < sent.len() implies #[trigger] sent[i].nat_of() < exp2(8) by {}
                }
            }
        }
    }
    r
}

/// A codeword damaged only at the listed positions, at most `ECC_SIZE`
/// of them, comes back whole from any repair that yields a codeword and
/// changes only those positions, as `correct_erasures` does when it
/// returns `Ok`.
pub proof fn lemma_erasures_restore(sent: Seq<u8>, received: Seq<u8>, repaired: Seq<u8>, erasures: Seq<usize>)
    requires
        sent.len() <= BLOCK_SIZE,
        is_codeword(words(sent), 10, 0x2, 0x11d),
        is_codeword(words(repaired), 10, 0x2, 0x11d),
        changed_only_at(sent, received, erasures),
        changed_only_at(received, repaired, erasures),
        erasures.len() <= ECC_SIZE,
    ensures
        repaired == sent,
{
    assert(bitlen(0x11d) == 9) by {
        reveal_with_fuel(bitlen, 11);
    }
    assert(exp2(8) == 0x100) by {
        reveal_with_fuel(exp2, 10);
    }
    crate::rs::lemma_gf256_rs_facts(sent.len());
    assert(block_ok(sent, 8)) by {
        assert forall|i: int| 0 <= i < sent.len() implies #[trigger] sent[i].nat_of() < exp2(8) by {}
    }
    assert(block_ok(repaired, 8)) by {
        assert forall|i: int| 0 <= i < repaired.len() implies #[trigger] repaired[i].nat_of() < exp2(8) by {}
    }
    lemma_repair_restores(sent, repaired, erasures, 10, 0x2, 0x11d, 8);
    assert forall|i: int| 0 <= i < sent.len() implies #[trigger] repaired[i] == sent[i] by {
        assert(words(repaired)[i] == words(sent)[i]);
    }
    assert(repaired =~= sent);
}

/// A codeword damaged only at the positions `damaged` comes back whole
/// from any repair that yields a codeword and changes only the positions
/// `touched`, as long as the two lists together hold at most `ECC_SIZE`
/// positions; `correct_errors` and `correct` return `Ok(n)` only for such a
/// repair, with `n` positions touched.
pub proof fn lemma_errors_restore(
    sent: Seq<u8>,
    received: Seq<u8>,
    repaired: Seq<u8>,
    damaged: Seq<usize>,
    touched: Seq<usize>,
)
    requires
        sent.len() <= BLOCK_SIZE,
        is_codeword(words(sent), 10, 0x2, 0x11d),
        is_codeword(words(repaired), 10, 0x2, 0x11d),
        changed_only_at(sent, received, damaged),
        changed_only_at(received, repaired, touched),
        damaged.len() + touched.len() <= ECC_SIZE,
    ensures
        repaired == sent,
{
    lemma_changes_compose(sent, received, repaired, damaged, touched);
    assert(bitlen(0x11d) == 9) by {
        reveal_with_fuel(bitlen, 11);
    }
    assert(exp2(8) == 0x100) by {
        reveal_with_fuel(exp2, 10);
    }
    crate::rs::lemma_gf256_rs_facts(sent.len());
    assert(block_ok(sent, 8)) by {
        assert forall|i: int| 0 <= i < sent.len() implies #[trigger] sent[i].nat_of() < exp2(8) by {}
    }
    assert(block_ok(repaired, 8)) by {
        assert forall|i: int| 0 <= i < repaired.len() implies #[trigger] repaired[i].nat_of() < exp2(8) by {}
    }
    lemma_repair_restores(sent, repaired, damaged + touched, 10, 0x2, 0x11d, 8);
    assert forall|i: int| 0 <= i < sent.len() implies #[trigger] repaired[i] == sent[i] by {
        assert(words(repaired)[i] == words(sent)[i]);
    }
    assert(repaired =~= sent);
}

} // verus!
