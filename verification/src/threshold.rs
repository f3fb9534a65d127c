//! AISE-THRESHOLD-MAC: a MAC keyed by several keys at once.
use crate::sponge;
use crate::sponge::{spec_absorb, spec_absorb_full, spec_init_with_ext, spec_squeeze_bytes};
use crate::state::Lane;
use vstd::prelude::*;

verus! {

/// The state after absorbing the first `n` keys, each padded under domain 0x0D
/// and absorbed into the full state.
pub open spec fn absorb_keys(s: Seq<Lane>, keys: Seq<Seq<u8>>, n: nat) -> Seq<Lane>
    decreases n,
{
    if n == 0 {
        s
    } else {
        spec_absorb_full(absorb_keys(s, keys, (n - 1) as nat), keys[n - 1], 0x0D)
    }
}

/// The number of keys as it is written into extension lane 66 (as a 32-bit count).
pub open spec fn key_count(n: nat) -> u64 {
    (n as u32) as u64
}

/// Initialise under domain 0x0D with the key count in lane 66, absorb every key
/// into the full state in order, absorb the message into the rate, squeeze.
pub open spec fn spec_threshold_mac(keys: Seq<Seq<u8>>, message: Seq<u8>, output_len: nat) -> Seq<u8> {
    let s0 = spec_init_with_ext(0x0D, output_len as u64, seq![(66usize, 0u64, key_count(keys.len()))]);
    spec_squeeze_bytes(
        spec_absorb(absorb_keys(s0, keys, keys.len()), message, 0x0D),
        output_len,
    )
}

/// The byte contents of each key.
pub open spec fn key_views(keys: Seq<&[u8]>) -> Seq<Seq<u8>> {
    keys.map_values(|k: &[u8]| k@)
}

/// Computes a MAC of `message` under all of `keys`, in the order given.
pub fn aise_threshold_mac(keys: &[&[u8]], message: &[u8], output_len: usize) -> (out: Vec<u8>)
    requires
        forall|i: int| 0 <= i < keys@.len() ==> #[trigger] keys@[i]@.len() + 2048 <= usize::MAX,
        message@.len() + 2048 <= usize::MAX,
    ensures
        out@ == spec_threshold_mac(key_views(keys@), message@, output_len as nat),
        out@.len() == output_len,
{
    let n = keys.len() as u32;
    let extensions = [(66usize, 0u64, n as u64)];
    proof {
        assert(extensions@ =~= seq![(66usize, 0u64, key_count(keys@.len()))]);
    }
    let mut s = sponge::init_with_ext(0x0D, output_len as u64, &extensions);
    let ghost s0 = s.lanes@;
    let ghost kv = key_views(keys@);
    let mut i: usize = 0;
    while i < keys.len()
        invariant
            i <= keys@.len(),
            kv == key_views(keys@),
            kv.len() == keys@.len(),
            forall|j: int| 0 <= j < keys@.len() ==> #[trigger] keys@[j]@.len() + 2048 <= usize::MAX,
            s.lanes@ == absorb_keys(s0, kv, i as nat),
        decreases keys@.len() - i,
    {
        let key: &[u8] = keys[i];
        assert(kv[i as int] == key@);
        sponge::absorb_full(&mut s, key, 0x0D);
        i = i + 1;
    }
    sponge::absorb(&mut s, message, 0x0D);
    sponge::squeeze(&mut s, output_len)
}

} // verus!
