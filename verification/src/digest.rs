//! The digest offered on the command line: a fixed-length hash, or the
//! extendable-output function for long outputs.
use crate::sponge;
use crate::sponge::{spec_hash_domain, spec_xof_domain};
use vstd::prelude::*;

verus! {

/// The digest: AISE-XOF when it is asked for or when the output is longer than
/// 64 bytes, AISE-HASH otherwise.
pub open spec fn spec_digest(data: Seq<u8>, output_len: nat, use_xof: bool) -> Seq<u8> {
    if use_xof || output_len > 64 {
        spec_xof_domain(data, 0x01, output_len)
    } else {
        spec_hash_domain(data, 0x00, output_len)
    }
}

/// Computes the digest of `data`, `output_len` bytes long.
pub fn aise_digest(data: &[u8], output_len: usize, use_xof: bool) -> (out: Vec<u8>)
    requires
        data@.len() + 2048 <= usize::MAX,
    ensures
        out@ == spec_digest(data@, output_len as nat, use_xof),
        out@.len() == output_len,
{
    if use_xof || output_len > 64 {
        sponge::aise_xof(data, output_len)
    } else {
        sponge::aise_hash(data, output_len)
    }
}

} // verus!
