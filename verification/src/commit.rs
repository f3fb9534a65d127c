//! AISE-COMMIT: hash commitments to a value with randomness.
use crate::sponge;
use crate::sponge::spec_hash_domain;
use vstd::prelude::*;

verus! {

/// The commitment: the 64-byte hash of `randomness || value` under domain 0x0B.
pub open spec fn spec_commit(value: Seq<u8>, randomness: Seq<u8>) -> Seq<u8> {
    spec_hash_domain(randomness + value, 0x0B, 64)
}

/// `randomness || value`.
fn concat(randomness: &[u8], value: &[u8]) -> (input: Vec<u8>)
    requires
        randomness@.len() + value@.len() <= usize::MAX,
    ensures
        input@ == randomness@ + value@,
{
    let mut input = Vec::with_capacity(randomness.len() + value.len());
    input.extend_from_slice(randomness);
    input.extend_from_slice(value);
    assert(input@ =~= randomness@ + value@);
    input
}

/// Commits to `value` with `randomness`.
pub fn aise_commit(value: &[u8], randomness: &[u8]) -> (c: Vec<u8>)
    requires
        randomness@.len() + value@.len() + 2048 <= usize::MAX,
    ensures
        c@ == spec_commit(value@, randomness@),
        c@.len() == 64,
{
    let input = concat(randomness, value);
    sponge::aise_hash_domain(input.as_slice(), 0x0B, 64)
}

/// Opens a commitment: true exactly when it is the commitment to `value` with `randomness`.
/// The comparison runs over every byte, without an early exit.
pub fn aise_open(commitment: &[u8], value: &[u8], randomness: &[u8]) -> (ok: bool)
    requires
        randomness@.len() + value@.len() + 2048 <= usize::MAX,
    ensures
        ok == spec_open(commitment@, value@, randomness@),
{
    let input = concat(randomness, value);
    let _verify = sponge::aise_hash_domain(input.as_slice(), 0x0C, 64);
    let expected = sponge::aise_hash_domain(input.as_slice(), 0x0B, 64);
    if expected.len() != commitment.len() {
        return false;
    }
    let mut diff: u8 = 0;
    let mut i: usize = 0;
    assert(expected@.take(0) =~= commitment@.take(0));
    while i < expected.len()
        invariant
            i <= expected@.len(),
            expected@.len() == commitment@.len(),
            (diff == 0) == (expected@.take(i as int) == commitment@.take(i as int)),
        decreases expected@.len() - i,
    {
        let a = expected[i];
        let b = commitment[i];
        let d0 = diff;
        diff |= a ^ b;
        proof {
            assert((d0 | (a ^ b)) == 0 <==> (d0 == 0 && a == b)) by (bit_vector);
            assert(expected@.take(i + 1) == expected@.take(i as int).push(a));
            assert(commitment@.take(i + 1) == commitment@.take(i as int).push(b));
            if expected@.take(i as int) == commitment@.take(i as int) && a != b {
                assert(expected@.take(i + 1)[i as int] != commitment@.take(i + 1)[i as int]);
            }
            if expected@.take(i + 1) == commitment@.take(i + 1) {
                assert(expected@.take(i as int) =~= expected@.take(i + 1).take(i as int));
                assert(commitment@.take(i as int) =~= commitment@.take(i + 1).take(i as int));
            }
        }
        i = i + 1;
    }
    assert(expected@.take(expected@.len() as int) =~= expected@);
    assert(commitment@.take(expected@.len() as int) =~= commitment@);
    diff == 0
}

/// Whether `commitment` opens to `value` with `randomness`.
pub open spec fn spec_open(commitment: Seq<u8>, value: Seq<u8>, randomness: Seq<u8>) -> bool {
    commitment == spec_commit(value, randomness)
}

/// A commitment opens to the value and randomness it was made from; it opens
/// to another value only if the two commitments coincide.
pub proof fn lemma_commit_opens(value: Seq<u8>, other: Seq<u8>, randomness: Seq<u8>)
    ensures
        spec_open(spec_commit(value, randomness), value, randomness),
        spec_open(spec_commit(value, randomness), other, randomness) <==> spec_commit(value, randomness)
            == spec_commit(other, randomness),
{
}

} // verus!
