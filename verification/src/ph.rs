//! AISE-PH: tunable password hashing.
use crate::permute;
use crate::sponge;
use crate::sponge::{perm_iter, spec_absorb_full, spec_init_with_ext, spec_squeeze_bytes};
use vstd::prelude::*;

verus! {

/// Initialise under domain 0x08 with the cost in lane 66, absorb `salt || password`
/// into the full state, apply the permutation `cost` more times, squeeze.
pub open spec fn spec_ph(password: Seq<u8>, salt: Seq<u8>, cost: u32, output_len: nat) -> Seq<u8> {
    let s0 = spec_init_with_ext(0x08, output_len as u64, seq![(66usize, 0u64, cost as u64)]);
    spec_squeeze_bytes(perm_iter(spec_absorb_full(s0, salt + password, 0x08), cost as nat), output_len)
}

/// Hashes a password with a salt; `cost` extra permutations set the work factor.
pub fn aise_ph(password: &[u8], salt: &[u8], cost: u32, output_len: usize) -> (out: Vec<u8>)
    requires
        salt@.len() + password@.len() + 2048 <= usize::MAX,
    ensures
        out@ == spec_ph(password@, salt@, cost, output_len as nat),
        out@.len() == output_len,
{
    let extensions = [(66usize, 0u64, cost as u64)];
    proof {
        assert(extensions@ =~= seq![(66usize, 0u64, cost as u64)]);
    }
    let mut s = sponge::init_with_ext(0x08, output_len as u64, &extensions);

    let mut ikm: Vec<u8> = Vec::with_capacity(salt.len() + password.len());
    ikm.extend_from_slice(salt);
    ikm.extend_from_slice(password);
    assert(ikm@ =~= salt@ + password@);
    sponge::absorb_full(&mut s, ikm.as_slice(), 0x08);

    let ghost s1 = s.lanes@;
    let mut c: u32 = 0;
    while c < cost
        invariant
            c <= cost,
            s.lanes@ == perm_iter(s1, c as nat),
        decreases cost - c,
    {
        permute::permute(&mut s);
        c = c + 1;
    }
    sponge::squeeze(&mut s, output_len)
}

} // verus!
