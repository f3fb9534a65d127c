# aise

AEGIS-Ω (AISE): an experimental sponge construction over a 16,384-bit state
(128 lanes of 128 bits), with a permutation that cascades three algebraic
layers: ARX over 32/64-bit words, GF(2^128), and GF(2^127 - 1). On top of the
sponge sit hashing, XOF, MAC, PRF, HMAC, KDF, password hashing, tree hashing,
commitments, a ratchet, a threshold MAC and a duplex cipher.

The permutation's parameters are this library's own (`src/constants.rs`):
affine lane routings modulo 128, round constants from a SplitMix64-style
generator keyed by layer, round and lane, and Cauchy mixing matrices. Every
digest depends on them, so outputs are specific to these parameters.

This is research code; it has had no cryptanalysis and must not protect real data.

The library is written in Verus. Every function states its result in its
`ensures` clause over mathematical specifications, and Verus proves it.

Layout:

- `src/state.rs`: lanes and the state.
- `src/field8.rs`, `src/field16.rs`, `src/field_b.rs`, `src/field_p.rs`: field
  arithmetic (GF(2^8), GF(2^16), GF(2^128), GF(2^127 - 1)), with the ring laws
  of GF(2^128) multiplication proved.
- `src/constants.rs`: routings, round constants and mixing matrices.
- `src/sbox_b.rs`, `src/sbox_c.rs`, `src/mds_b.rs`, `src/mds_c.rs`,
  `src/pi_a.rs`, `src/pi_b.rs`, `src/pi_c.rs`, `src/permute.rs`: the permutation.
- `src/padding.rs`, `src/sponge.rs`: padding, absorbing, squeezing.
- `src/mac.rs`, `src/prf.rs`, `src/hmac.rs`, `src/kdf.rs`, `src/ph.rs`,
  `src/personalized.rs`, `src/tree.rs`, `src/commit.rs`, `src/ratchet.rs`,
  `src/threshold.rs`, `src/duplex.rs`, `src/digest.rs`: the modes.
- `tests/`: tests on concrete values.
- `app/main.rs`: the command-line tool (`-s <string>`, `-f <file>`, `-l <bytes>`,
  or standard input), printing the digest in hexadecimal.
