//! AISE-DUPLEX: authenticated encryption on a duplexed sponge.
use crate::permute;
use crate::permute::{lemma_permute_lanes_below_p, spec_permute};
use crate::sponge;
use crate::sponge::{rate_bytes, spec_absorb_full, spec_init, spec_squeeze_bytes, spec_squeeze_state, xor_rate};
use crate::state::{lane_val, Lane, State};
use crate::field_p::P;
use vstd::prelude::*;

verus! {

/// A duplex session.
pub struct DuplexState {
    pub s: State,
}

/// The session state after keying: initialise under 0x20 with output length
/// 0, then absorb the padded `key || nonce` into the full state.
pub open spec fn spec_duplex_new(key: Seq<u8>, nonce: Seq<u8>) -> Seq<Lane> {
    spec_absorb_full(spec_init(0x20, 0), key + nonce, 0x20)
}

/// A session is keyed by the concatenation `key || nonce` alone: splitting the
/// same bytes differently between key and nonce gives the same state.
pub proof fn lemma_duplex_new_concat(k1: Seq<u8>, n1: Seq<u8>, k2: Seq<u8>, n2: Seq<u8>)
    requires
        k1 + n1 == k2 + n2,
    ensures
        spec_duplex_new(k1, n1) == spec_duplex_new(k2, n2),
{
}

/// The input XORed with the leading rate bytes (the keystream).
pub open spec fn spec_duplex_out(s: Seq<Lane>, input: Seq<u8>) -> Seq<u8> {
    Seq::new(input.len(), |i: int| input[i] ^ rate_bytes(s)[i])
}

/// The state after a block: the ciphertext, zero-padded to 1024 bytes, is XORed
/// into the rate and the state is permuted.
pub open spec fn spec_duplex_next(s: Seq<Lane>, ciphertext: Seq<u8>) -> Seq<Lane> {
    spec_permute(xor_rate(s, ciphertext + Seq::new((1024 - ciphertext.len()) as nat, |i: int| 0u8)))
}

/// A duplex block ends with the permutation: the next state is the
/// permutation of the state with the zero-padded ciphertext XORed into the
/// rate, the next keystream is the rate of that permuted state, and so every
/// lane of the session state after a block lies below p.
pub proof fn lemma_duplex_next_permutes(s: Seq<Lane>, c: Seq<u8>, p: Seq<u8>)
    requires
        c.len() <= 1024,
        p.len() <= 1024,
    ensures
        spec_duplex_next(s, c) == spec_permute(
            Seq::new(
                128,
                |j: int|
                    if j < 64 {
                        crate::sponge::lane_xor(s[j], crate::sponge::block_lane(c + Seq::new((1024 - c.len()) as nat, |i: int| 0u8), j))
                    } else {
                        s[j]
                    },
            ),
        ),
        forall|i: int|
            0 <= i < p.len() ==> #[trigger] spec_duplex_out(spec_duplex_next(s, c), p)[i] == p[i] ^ rate_bytes(
                spec_permute(xor_rate(s, c + Seq::new((1024 - c.len()) as nat, |i: int| 0u8))),
            )[i],
        forall|j: int| 0 <= j < 128 ==> lane_val(#[trigger] spec_duplex_next(s, c)[j]) < P,
{
    lemma_permute_lanes_below_p(xor_rate(s, c + Seq::new((1024 - c.len()) as nat, |i: int| 0u8)));
}

/// Decryption undoes encryption: XORing the keystream twice gives the input
/// back, and both directions absorb the same ciphertext, so the two sides of a
/// session stay in the same state.
pub proof fn lemma_duplex_roundtrip(s: Seq<Lane>, plaintext: Seq<u8>)
    requires
        plaintext.len() <= 1024,
    ensures
        spec_duplex_out(s, spec_duplex_out(s, plaintext)) == plaintext,
{
    let c = spec_duplex_out(s, plaintext);
    assert forall|i: int| 0 <= i < plaintext.len() implies #[trigger] spec_duplex_out(s, c)[i] == plaintext[i] by {
        let x = plaintext[i];
        let k = rate_bytes(s)[i];
        assert((x ^ k) ^ k == x) by (bit_vector);
    }
    assert(spec_duplex_out(s, c) =~= plaintext);
}

/// Encrypting the blocks `ps` in turn from state `s`: the ciphertext blocks and the final state.
pub open spec fn spec_encrypt_blocks(s: Seq<Lane>, ps: Seq<Seq<u8>>) -> (Seq<Seq<u8>>, Seq<Lane>)
    decreases ps.len(),
{
    if ps.len() == 0 {
        (seq![], s)
    } else {
        let prev = spec_encrypt_blocks(s, ps.drop_last());
        let c = spec_duplex_out(prev.1, ps.last());
        (prev.0.push(c), spec_duplex_next(prev.1, c))
    }
}

/// Decrypting the blocks `cs` in turn from state `s`: the plaintext blocks and the final state.
pub open spec fn spec_decrypt_blocks(s: Seq<Lane>, cs: Seq<Seq<u8>>) -> (Seq<Seq<u8>>, Seq<Lane>)
    decreases cs.len(),
{
    if cs.len() == 0 {
        (seq![], s)
    } else {
        let prev = spec_decrypt_blocks(s, cs.drop_last());
        (prev.0.push(spec_duplex_out(prev.1, cs.last())), spec_duplex_next(prev.1, cs.last()))
    }
}

/// A session decrypts what a session with the same starting state encrypted:
/// block by block the plaintexts come back, and both sides end in the same
/// state, so their tags agree.
pub proof fn lemma_duplex_session_roundtrip(s: Seq<Lane>, ps: Seq<Seq<u8>>)
    requires
        forall|i: int| 0 <= i < ps.len() ==> (#[trigger] ps[i]).len() <= 1024,
    ensures
        spec_decrypt_blocks(s, spec_encrypt_blocks(s, ps).0) == (ps, spec_encrypt_blocks(s, ps).1),
        spec_encrypt_blocks(s, ps).0.len() == ps.len(),
    decreases ps.len(),
{
    if ps.len() > 0 {
        let init = ps.drop_last();
        assert forall|i: int| 0 <= i < init.len() implies (#[trigger] init[i]).len() <= 1024 by {
            assert(init[i] == ps[i]);
        }
        lemma_duplex_session_roundtrip(s, init);
        let prev = spec_encrypt_blocks(s, init);
        let c = spec_duplex_out(prev.1, ps.last());
        let cs = prev.0.push(c);
        assert(cs.drop_last() =~= prev.0);
        assert(cs.last() == c);
        lemma_duplex_roundtrip(prev.1, ps.last());
        assert(init.push(ps.last()) =~= ps);
    }
}

impl DuplexState {
    /// Starts a session from a key and a nonce.
    pub fn new(key: &[u8], nonce: &[u8]) -> (d: Self)
        requires
            key@.len() + nonce@.len() + 2048 <= usize::MAX,
        ensures
            d.s.lanes@ == spec_duplex_new(key@, nonce@),
    {
        let mut s = sponge::init(0x20, 0);
        let mut kn: Vec<u8> = Vec::with_capacity(key.len() + nonce.len());
        kn.extend_from_slice(key);
        kn.extend_from_slice(nonce);
        assert(kn@ =~= key@ + nonce@);
        sponge::absorb_full(&mut s, kn.as_slice(), 0x20);
        DuplexState { s }
    }

    /// Keystream XOR of one block of at most 1024 bytes, then absorption of
    /// the ciphertext block (`ciphertext` is the input on encryption and the
    /// output on decryption).
    fn duplex_block(&mut self, input: &[u8], encrypting: bool) -> (out: Vec<u8>)
        requires
            input@.len() <= 1024,
        ensures
            out@ == spec_duplex_out(old(self).s.lanes@, input@),
            final(self).s.lanes@ == spec_duplex_next(
                old(self).s.lanes@,
                if encrypting { out@ } else { input@ },
            ),
    {
        let ghost s0 = self.s.lanes@;
        let mut keystream: Vec<u8> = Vec::with_capacity(input.len());
        sponge::append_rate(&mut keystream, &self.s);
        keystream.truncate(input.len());
        let mut out: Vec<u8> = Vec::with_capacity(input.len());
        let mut i: usize = 0;
        while i < input.len()
            invariant
                i <= input@.len(),
                input@.len() <= 1024,
                keystream@ == rate_bytes(s0).take(input@.len() as int),
                out@ =~= spec_duplex_out(s0, input@).take(i as int),
            decreases input@.len() - i,
        {
            out.push(input[i] ^ keystream[i]);
            i = i + 1;
        }
        assert(out@ =~= spec_duplex_out(s0, input@));
        let mut cblk = [0u8; 1024];
        let ghost c = if encrypting { out@ } else { input@ };
        let mut j: usize = 0;
        while j < input.len()
            invariant
                j <= input@.len(),
                input@.len() <= 1024,
                out@.len() == input@.len(),
                c == (if encrypting { out@ } else { input@ }),
                forall|k: int| 0 <= k < j ==> cblk@[k] == c[k],
                forall|k: int| j <= k < 1024 ==> cblk@[k] == 0,
            decreases input@.len() - j,
        {
            let b = if encrypting { out[j] } else { input[j] };
            cblk.set(j, b);
            j = j + 1;
        }
        assert(cblk@ =~= c + Seq::new((1024 - c.len()) as nat, |i: int| 0u8));
        sponge::xor_block_rate(&mut self.s, &cblk, 0);
        assert(cblk@.subrange(0, 1024) =~= cblk@);
        permute::permute(&mut self.s);
        out
    }

    /// Encrypts one block of at most 1024 bytes.
    pub fn encrypt(&mut self, plaintext: &[u8]) -> (ciphertext: Vec<u8>)
        requires
            plaintext@.len() <= 1024,
        ensures
            ciphertext@ == spec_duplex_out(old(self).s.lanes@, plaintext@),
            final(self).s.lanes@ == spec_duplex_next(old(self).s.lanes@, ciphertext@),
    {
        self.duplex_block(plaintext, true)
    }

    /// Decrypts one block of at most 1024 bytes.
    pub fn decrypt(&mut self, ciphertext: &[u8]) -> (plaintext: Vec<u8>)
        requires
            ciphertext@.len() <= 1024,
        ensures
            plaintext@ == spec_duplex_out(old(self).s.lanes@, ciphertext@),
            final(self).s.lanes@ == spec_duplex_next(old(self).s.lanes@, ciphertext@),
    {
        self.duplex_block(ciphertext, false)
    }

    /// Squeezes an authentication tag.
    pub fn finalize(&mut self, tag_len: usize) -> (tag: Vec<u8>)
        ensures
            tag@ == spec_squeeze_bytes(old(self).s.lanes@, tag_len as nat),
            final(self).s.lanes@ == spec_squeeze_state(old(self).s.lanes@, tag_len as nat),
            tag@.len() == tag_len,
    {
        sponge::squeeze(&mut self.s, tag_len)
    }
}

} // verus!
