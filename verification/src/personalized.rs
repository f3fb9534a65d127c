//! AISE-PERSONALIZED: a context string absorbed before the message.
use crate::sponge;
use crate::sponge::{spec_absorb, spec_init, spec_squeeze_bytes};
use vstd::prelude::*;

verus! {

/// Initialise under 0x05, absorb the context, absorb the message, squeeze.
pub open spec fn spec_personalized_hash(context: Seq<u8>, message: Seq<u8>, output_len: nat) -> Seq<u8> {
    spec_squeeze_bytes(
        spec_absorb(spec_absorb(spec_init(0x05, output_len as u64), context, 0x05), message, 0x05),
        output_len,
    )
}

/// Hashes a message under a personalisation context.
pub fn aise_personalized_hash(context: &[u8], message: &[u8], output_len: usize) -> (out: Vec<u8>)
    requires
        context@.len() + 2048 <= usize::MAX,
        message@.len() + 2048 <= usize::MAX,
    ensures
        out@ == spec_personalized_hash(context@, message@, output_len as nat),
        out@.len() == output_len,
{
    let mut s = sponge::init(0x05, output_len as u64);
    sponge::absorb(&mut s, context, 0x05);
    sponge::absorb(&mut s, message, 0x05);
    sponge::squeeze(&mut s, output_len)
}

} // verus!
