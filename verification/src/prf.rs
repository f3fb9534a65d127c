//! AISE-PRF: the keyed sponge under its own domain.
use crate::mac::{aise_mac_internal, spec_mac_internal};
use vstd::prelude::*;

verus! {

/// AISE-PRF: the keyed sponge under domain 0x09.
pub fn aise_prf(key: &[u8], input: &[u8], output_len: usize) -> (out: Vec<u8>)
    requires
        key@.len() + 2048 <= usize::MAX,
        input@.len() + 2048 <= usize::MAX,
    ensures
        out@ == spec_mac_internal(key@, input@, output_len as nat, 0x09),
        out@.len() == output_len,
{
    aise_mac_internal(key, input, output_len, 0x09)
}

} // verus!
