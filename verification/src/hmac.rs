//! AISE-HMAC: the nested HMAC construction over the sponge hash.
use crate::sponge;
use crate::sponge::{lemma_squeeze_len, spec_hash_domain, spec_xof_domain};
use vstd::prelude::*;

verus! {

/// The HMAC block size: one rate block.
pub const B: usize = 1024;

/// The key brought to exactly one block: a longer key is replaced by 1024 bytes
/// of its XOF output, a shorter one is padded with zeros.
pub open spec fn spec_key_block(key: Seq<u8>) -> Seq<u8> {
    if key.len() > 1024 {
        spec_xof_domain(key, 0x01, 1024)
    } else {
        key + Seq::new((1024 - key.len()) as nat, |i: int| 0u8)
    }
}

/// The key block XORed with a repeated pad byte.
pub open spec fn spec_pad_key(kb: Seq<u8>, pad: u8) -> Seq<u8> {
    Seq::new(1024, |i: int| pad ^ kb[i])
}

/// `H_04(opad || H_03(ipad || message, 64), output_len)`.
pub open spec fn spec_hmac(key: Seq<u8>, message: Seq<u8>, output_len: nat) -> Seq<u8> {
    let kb = spec_key_block(key);
    let inner = spec_hash_domain(spec_pad_key(kb, 0x36) + message, 0x03, 64);
    spec_hash_domain(spec_pad_key(kb, 0x5c) + inner, 0x04, output_len)
}

/// HMAC is the nested construction over the key block `kb`: the inner digest is
/// the domain-0x03 hash of `(kb XOR 0x36..) || message`, and the tag is the
/// domain-0x04 hash of `(kb XOR 0x5c..) || inner digest`. Messages enter the
/// tag only through the inner digest, and every message byte enters it.
pub proof fn lemma_hmac_nested(key: Seq<u8>, message: Seq<u8>, other: Seq<u8>, output_len: nat)
    ensures
        spec_hmac(key, message, output_len) == spec_hash_domain(
            Seq::new(1024, |i: int| 0x5cu8 ^ spec_key_block(key)[i]) + spec_hash_domain(
                Seq::new(1024, |i: int| 0x36u8 ^ spec_key_block(key)[i]) + message,
                0x03,
                64,
            ),
            0x04,
            output_len,
        ),
        spec_hash_domain(Seq::new(1024, |i: int| 0x36u8 ^ spec_key_block(key)[i]) + message, 0x03, 64)
            == spec_hash_domain(Seq::new(1024, |i: int| 0x36u8 ^ spec_key_block(key)[i]) + other, 0x03, 64)
            ==> spec_hmac(key, message, output_len) == spec_hmac(key, other, output_len),
{
    let kb = spec_key_block(key);
    assert(spec_pad_key(kb, 0x36) =~= Seq::new(1024, |i: int| 0x36u8 ^ kb[i]));
    assert(spec_pad_key(kb, 0x5c) =~= Seq::new(1024, |i: int| 0x5cu8 ^ kb[i]));
}

/// Key normalisation: a key longer than one block acts as its 1024-byte XOF
/// output, and a shorter key acts as itself extended by zero bytes up to the block.
pub proof fn lemma_hmac_key_normalisation(key: Seq<u8>, message: Seq<u8>, output_len: nat, t: nat)
    ensures
        key.len() > 1024 ==> spec_hmac(key, message, output_len) == spec_hmac(
            spec_xof_domain(key, 0x01, 1024),
            message,
            output_len,
        ),
        key.len() + t <= 1024 ==> spec_hmac(key, message, output_len) == spec_hmac(
            key + Seq::new(t, |i: int| 0u8),
            message,
            output_len,
        ),
{
    if key.len() > 1024 {
        let x = spec_xof_domain(key, 0x01, 1024);
        lemma_squeeze_len(crate::sponge::spec_absorb(crate::sponge::spec_init(0x01, 0), key, 0x01), 1024);
        assert(spec_key_block(x) =~= spec_key_block(key));
    }
    if key.len() + t <= 1024 {
        let k2 = key + Seq::new(t, |i: int| 0u8);
        assert(spec_key_block(k2) =~= spec_key_block(key));
    }
}

/// AISE-HMAC of a message under a key.
pub fn aise_hmac(key: &[u8], message: &[u8], output_len: usize) -> (out: Vec<u8>)
    requires
        key@.len() + 2048 <= usize::MAX,
        message@.len() + 4096 <= usize::MAX,
    ensures
        out@ == spec_hmac(key@, message@, output_len as nat),
        out@.len() == output_len,
{
    let mut k_prime = vec![0u8; B];
    if key.len() > B {
        let xof_k = sponge::aise_xof(key, B);
        let mut i: usize = 0;
        while i < B
            invariant
                i <= B,
                xof_k@.len() == B,
                k_prime@.len() == B,
                forall|j: int| 0 <= j < i ==> k_prime@[j] == xof_k@[j],
            decreases B - i,
        {
            k_prime.set(i, xof_k[i]);
            i = i + 1;
        }
        assert(k_prime@ =~= spec_key_block(key@));
    } else {
        let mut i: usize = 0;
        while i < key.len()
            invariant
                i <= key@.len(),
                key@.len() <= B,
                k_prime@.len() == B,
                forall|j: int| 0 <= j < i ==> k_prime@[j] == key@[j],
                forall|j: int| key@.len() <= j < B ==> k_prime@[j] == 0,
            decreases key@.len() - i,
        {
            k_prime.set(i, key[i]);
            i = i + 1;
        }
        assert(k_prime@ =~= spec_key_block(key@));
    }

    let mut ipad = vec![0x36u8; B];
    let mut opad = vec![0x5cu8; B];
    let mut i: usize = 0;
    while i < B
        invariant
            i <= B,
            k_prime@ == spec_key_block(key@),
            k_prime@.len() == B,
            ipad@.len() == B,
            opad@.len() == B,
            forall|j: int| 0 <= j < i ==> ipad@[j] == 0x36u8 ^ k_prime@[j],
            forall|j: int| 0 <= j < i ==> opad@[j] == 0x5cu8 ^ k_prime@[j],
            forall|j: int| i <= j < B ==> ipad@[j] == 0x36u8,
            forall|j: int| i <= j < B ==> opad@[j] == 0x5cu8,
        decreases B - i,
    {
        let ki = k_prime[i];
        let a = ipad[i];
        let b = opad[i];
        ipad.set(i, a ^ ki);
        opad.set(i, b ^ ki);
        i = i + 1;
    }
    assert(ipad@ =~= spec_pad_key(spec_key_block(key@), 0x36));
    assert(opad@ =~= spec_pad_key(spec_key_block(key@), 0x5c));

    let mut inner_input: Vec<u8> = Vec::with_capacity(B + message.len());
    inner_input.extend_from_slice(ipad.as_slice());
    inner_input.extend_from_slice(message);
    assert(inner_input@ =~= ipad@ + message@);
    let inner = sponge::aise_hash_domain(inner_input.as_slice(), 0x03, 64);

    let mut outer_input: Vec<u8> = Vec::with_capacity(B + 64);
    outer_input.extend_from_slice(opad.as_slice());
    outer_input.extend_from_slice(inner.as_slice());
    assert(outer_input@ =~= opad@ + inner@);
    sponge::aise_hash_domain(outer_input.as_slice(), 0x04, output_len)
}

} // verus!
