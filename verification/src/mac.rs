//! AISE-MAC: keyed hashing with full-state key absorption.
use crate::sponge;
use crate::sponge::{spec_absorb, spec_absorb_full, spec_init, spec_squeeze_bytes};
use vstd::prelude::*;

verus! {

/// The keyed sponge: initialise under `domain`, absorb the padded key into the
/// full state, absorb the message into the rate, squeeze.
pub open spec fn spec_mac_internal(key: Seq<u8>, message: Seq<u8>, output_len: nat, domain: u8) -> Seq<u8> {
    spec_squeeze_bytes(
        spec_absorb(spec_absorb_full(spec_init(domain, output_len as u64), key, domain), message, domain),
        output_len,
    )
}

/// The keyed sponge shared by MAC, PRF and KDF extraction.
pub fn aise_mac_internal(key: &[u8], message: &[u8], output_len: usize, domain: u8) -> (out: Vec<u8>)
    requires
        key@.len() + 2048 <= usize::MAX,
        message@.len() + 2048 <= usize::MAX,
    ensures
        out@ == spec_mac_internal(key@, message@, output_len as nat, domain),
        out@.len() == output_len,
{
    let mut s = sponge::init(domain, output_len as u64);
    sponge::absorb_full(&mut s, key, domain);
    sponge::absorb(&mut s, message, domain);
    sponge::squeeze(&mut s, output_len)
}

/// AISE-MAC: domain 0x02.
pub fn aise_mac(key: &[u8], message: &[u8], output_len: usize) -> (out: Vec<u8>)
    requires
        key@.len() + 2048 <= usize::MAX,
        message@.len() + 2048 <= usize::MAX,
    ensures
        out@ == spec_mac_internal(key@, message@, output_len as nat, 0x02),
        out@.len() == output_len,
{
    aise_mac_internal(key, message, output_len, 0x02)
}

} // verus!
