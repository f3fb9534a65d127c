//! AEGIS-Ω (AISE): a wide sponge over a three-layer permutation, and the
//! hashing, keyed and authenticated-encryption modes built on it.

pub mod avalanche;
pub mod commit;
pub mod constants;
pub mod digest;
pub mod duplex;
pub mod field16;
pub mod field8;
pub mod field_b;
pub mod field_p;
pub mod hmac;
pub mod kdf;
pub mod mac;
pub mod mds_b;
pub mod mds_c;
pub mod padding;
pub mod permute;
pub mod personalized;
pub mod ph;
pub mod pi_a;
pub mod pi_b;
pub mod pi_c;
pub mod prf;
pub mod ratchet;
pub mod sbox_b;
pub mod sbox_c;
pub mod sponge;
pub mod state;
pub mod threshold;
pub mod tree;
