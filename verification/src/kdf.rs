//! AISE-KDF: extract-then-expand key derivation.
use crate::mac::{aise_mac_internal, spec_mac_internal};
use crate::sponge;
use crate::sponge::{spec_absorb, spec_absorb_full, spec_init, spec_squeeze_bytes};
use vstd::prelude::*;

verus! {

/// Extraction: the keyed sponge under domain 0x06, keyed by the salt, 64 bytes.
pub open spec fn spec_kdf_extract(salt: Seq<u8>, ikm: Seq<u8>) -> Seq<u8> {
    spec_mac_internal(salt, ikm, 64, 0x06)
}

/// Expansion: initialise under 0x07, absorb the padded key into the full state,
/// absorb the info string, squeeze.
pub open spec fn spec_kdf_expand(prk: Seq<u8>, info: Seq<u8>, output_len: nat) -> Seq<u8> {
    spec_squeeze_bytes(
        spec_absorb(spec_absorb_full(spec_init(0x07, output_len as u64), prk, 0x07), info, 0x07),
        output_len,
    )
}

/// Extracts a 64-byte pseudorandom key.
pub fn aise_kdf_extract(salt: &[u8], ikm: &[u8]) -> (prk: Vec<u8>)
    requires
        salt@.len() + 2048 <= usize::MAX,
        ikm@.len() + 2048 <= usize::MAX,
    ensures
        prk@ == spec_kdf_extract(salt@, ikm@),
        prk@.len() == 64,
{
    aise_mac_internal(salt, ikm, 64, 0x06)
}

/// Expands a pseudorandom key and an info string into `output_len` bytes.
pub fn aise_kdf_expand(prk: &[u8], info: &[u8], output_len: usize) -> (okm: Vec<u8>)
    requires
        prk@.len() + 2048 <= usize::MAX,
        info@.len() + 2048 <= usize::MAX,
    ensures
        okm@ == spec_kdf_expand(prk@, info@, output_len as nat),
        okm@.len() == output_len,
{
    let mut s = sponge::init(0x07, output_len as u64);
    sponge::absorb_full(&mut s, prk, 0x07);
    sponge::absorb(&mut s, info, 0x07);
    sponge::squeeze(&mut s, output_len)
}

/// Extract, then expand.
pub fn aise_kdf(salt: &[u8], ikm: &[u8], info: &[u8], output_len: usize) -> (okm: Vec<u8>)
    requires
        salt@.len() + 2048 <= usize::MAX,
        ikm@.len() + 2048 <= usize::MAX,
        info@.len() + 2048 <= usize::MAX,
    ensures
        okm@ == spec_kdf_expand(spec_kdf_extract(salt@, ikm@), info@, output_len as nat),
        okm@.len() == output_len,
{
    let prk = aise_kdf_extract(salt, ikm);
    aise_kdf_expand(prk.as_slice(), info, output_len)
}

} // verus!
