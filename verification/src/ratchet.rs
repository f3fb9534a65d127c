//! AISE-RATCHET: a forward-secure hash chain.
use crate::sponge;
use crate::sponge::{spec_hash_domain, spec_xof_domain};
use vstd::prelude::*;

verus! {

/// The initial 128-byte chain state: the hash of the secret under domain 0x0A.
pub open spec fn spec_ratchet_init(initial_secret: Seq<u8>) -> Seq<u8> {
    spec_hash_domain(initial_secret, 0x0A, 128)
}

/// 192 bytes of XOF output from the current state under domain 0x0A.
pub open spec fn spec_ratchet_stream(state: Seq<u8>) -> Seq<u8> {
    spec_xof_domain(state, 0x0A, 192)
}

/// Starts a ratchet chain from a secret.
pub fn aise_ratchet_init(initial_secret: &[u8]) -> (state: Vec<u8>)
    requires
        initial_secret@.len() + 2048 <= usize::MAX,
    ensures
        state@ == spec_ratchet_init(initial_secret@),
        state@.len() == 128,
{
    sponge::aise_hash_domain(initial_secret, 0x0A, 128)
}

/// Advances the chain: the next state is the first 128 bytes of the stream,
/// the output key the following 64. The consumed state is zeroed before it is dropped.
pub fn aise_ratchet_step(state_i: Vec<u8>) -> (r: (Vec<u8>, Vec<u8>))
    requires
        state_i@.len() + 2048 <= usize::MAX,
    ensures
        r.0@ == spec_ratchet_stream(state_i@).subrange(0, 128),
        r.1@ == spec_ratchet_stream(state_i@).subrange(128, 192),
        r.0@.len() == 128,
        r.1@.len() == 64,
{
    let mut state_i = state_i;
    let combined = sponge::aise_xof_domain(state_i.as_slice(), 0x0A, 192);
    let mut i: usize = 0;
    while i < state_i.len()
        invariant
            i <= state_i@.len(),
        decreases state_i@.len() - i,
    {
        state_i.set(i, 0);
        i = i + 1;
    }
    let mut state_next: Vec<u8> = Vec::with_capacity(128);
    let mut output_key: Vec<u8> = Vec::with_capacity(64);
    let mut k: usize = 0;
    while k < 192
        invariant
            k <= 192,
            combined@.len() == 192,
            k <= 128 ==> state_next@ == combined@.subrange(0, k as int),
            k > 128 ==> state_next@ == combined@.subrange(0, 128),
            k <= 128 ==> output_key@.len() == 0,
            k > 128 ==> output_key@ == combined@.subrange(128, k as int),
        decreases 192 - k,
    {
        if k < 128 {
            state_next.push(combined[k]);
            assert(state_next@ =~= combined@.subrange(0, k + 1));
        } else {
            output_key.push(combined[k]);
            assert(output_key@ =~= combined@.subrange(128, k + 1));
        }
        k = k + 1;
    }
    (state_next, output_key)
}

} // verus!
