//! Concrete checks of the library's laws, formulas and edge cases.

use aise::avalanche;
use aise::commit;
use aise::digest::aise_digest;
use aise::duplex::DuplexState;
use aise::field16;
use aise::field8;
use aise::field_b;
use aise::field_p;
use aise::hmac;
use aise::kdf;
use aise::mac;
use aise::padding;
use aise::permute;
use aise::personalized;
use aise::ph;
use aise::pi_a;
use aise::prf;
use aise::ratchet;
use aise::sponge;
use aise::state::{Lane, State};
use aise::threshold;
use aise::tree;

fn lane_value(l: Lane) -> u128 {
    ((l.hi as u128) << 64) | (l.lo as u128)
}

#[test]
fn test_xof_output_is_prefix_of_longer_output() {
    let m = b"extendable output";
    let short = sponge::aise_xof(m, 100);
    let long = sponge::aise_xof(m, 2100);
    assert_eq!(short.len(), 100);
    assert_eq!(long.len(), 2100);
    assert_eq!(&short[..], &long[..100]);
}

#[test]
fn test_hash_binds_output_length() {
    let m = b"length matters";
    let a = sponge::aise_hash(m, 32);
    let b = sponge::aise_hash(m, 64);
    assert_eq!(a.len(), 32);
    assert_ne!(&a[..], &b[..32]);
}

#[test]
fn test_hash_zero_length_output() {
    assert!(sponge::aise_hash(b"abc", 0).is_empty());
    assert!(sponge::aise_xof(b"abc", 0).is_empty());
}

#[test]
fn test_hash_and_xof_are_domain_separated() {
    let m = b"same message";
    let h = sponge::aise_hash_domain(m, 0x00, 64);
    let x = sponge::aise_xof_domain(m, 0x00, 64);
    assert_eq!(h, sponge::aise_hash(m, 64));
    assert_ne!(h, sponge::aise_xof(m, 64));
    assert_ne!(h, x);
}

#[test]
fn test_init_depends_on_domain() {
    let a = sponge::init(0x00, 64);
    let b = sponge::init(0x01, 64);
    assert_ne!(a.lanes, b.lanes);
}

#[test]
fn test_pad_shapes() {
    let p = padding::pad(b"abc", 0x07);
    assert_eq!(p.len(), 1024);
    assert_eq!(&p[..6], &[b'a', b'b', b'c', 0x01, 0x07, 0x01]);
    assert!(p[6..1023].iter().all(|&b| b == 0));
    assert_eq!(p[1023], 0x80);
    assert_eq!(padding::pad(&[], 0x00).len(), 1024);
    assert_eq!(padding::pad(&[0u8; 1020], 0x00).len(), 1024);
    assert_eq!(padding::pad(&[0u8; 1021], 0x00).len(), 2048);
    let q = padding::pad(&[0xAAu8; 1020], 0x05);
    assert_eq!(&q[1020..], &[0x01, 0x05, 0x01, 0x80]);
}

#[test]
fn test_absorb_is_padding_then_blocks() {
    let m = b"absorb";
    let mut s = sponge::init(0x00, 64);
    sponge::absorb(&mut s, m, 0x00);
    let out = sponge::squeeze(&mut s, 64);
    assert_eq!(out, sponge::aise_hash(m, 64));
}

#[test]
fn test_duplex_roundtrip_and_tag() {
    let key = b"duplex key";
    let nonce = b"nonce-0001";
    let msg1 = b"first block of plaintext".to_vec();
    let msg2 = vec![0x5Au8; 1024];
    let mut enc = DuplexState::new(key, nonce);
    let c1 = enc.encrypt(&msg1);
    let c2 = enc.encrypt(&msg2);
    let tag_e = enc.finalize(32);
    assert_ne!(c1, msg1);
    assert_eq!(c1.len(), msg1.len());
    assert_eq!(c2.len(), 1024);
    let mut dec = DuplexState::new(key, nonce);
    let p1 = dec.decrypt(&c1);
    let p2 = dec.decrypt(&c2);
    let tag_d = dec.finalize(32);
    assert_eq!(p1, msg1);
    assert_eq!(p2, msg2);
    assert_eq!(tag_e, tag_d);
}

#[test]
fn test_duplex_tag_detects_tampering() {
    let key = b"k";
    let nonce = b"n";
    let mut enc = DuplexState::new(key, nonce);
    let mut c = enc.encrypt(b"attack at dawn");
    let tag = enc.finalize(16);
    c[0] ^= 1;
    let mut dec = DuplexState::new(key, nonce);
    let _ = dec.decrypt(&c);
    assert_ne!(dec.finalize(16), tag);
}

#[test]
fn test_commit_rejects_wrong_randomness() {
    let c = commit::aise_commit(b"value", b"r1");
    assert_eq!(c.len(), 64);
    assert!(commit::aise_open(&c, b"value", b"r1"));
    assert!(!commit::aise_open(&c, b"value", b"r2"));
    assert!(!commit::aise_open(&c[..63], b"value", b"r1"));
}

#[test]
fn test_ratchet_lengths_and_chain() {
    let s0 = ratchet::aise_ratchet_init(b"seed");
    assert_eq!(s0.len(), 128);
    let (s1, k0) = ratchet::aise_ratchet_step(s0.clone());
    assert_eq!(s1.len(), 128);
    assert_eq!(k0.len(), 64);
    let stream = sponge::aise_xof_domain(&s0, 0x0A, 192);
    assert_eq!(&s1[..], &stream[..128]);
    assert_eq!(&k0[..], &stream[128..]);
}

#[test]
fn test_kdf_is_extract_then_expand() {
    let prk = kdf::aise_kdf_extract(b"salt", b"input key material");
    assert_eq!(prk.len(), 64);
    let okm = kdf::aise_kdf_expand(&prk, b"info", 80);
    assert_eq!(okm.len(), 80);
    assert_eq!(kdf::aise_kdf(b"salt", b"input key material", b"info", 80), okm);
    assert_eq!(prk, mac::aise_mac_internal(b"salt", b"input key material", 64, 0x06));
}

#[test]
fn test_mac_prf_hmac_are_distinct() {
    let key = b"shared key";
    let msg = b"message";
    let m = mac::aise_mac(key, msg, 64);
    let p = prf::aise_prf(key, msg, 64);
    let h = hmac::aise_hmac(key, msg, 64);
    assert_eq!(m, mac::aise_mac_internal(key, msg, 64, 0x02));
    assert_eq!(p, mac::aise_mac_internal(key, msg, 64, 0x09));
    assert_eq!(h.len(), 64);
    assert_ne!(m, p);
    assert_ne!(m, h);
    assert_ne!(mac::aise_mac(b"other key", msg, 64), m);
}

#[test]
fn test_hmac_long_key_is_hashed() {
    let long_key = vec![0x11u8; 2000];
    let out = hmac::aise_hmac(&long_key, b"m", 48);
    assert_eq!(out.len(), 48);
    assert_ne!(out, hmac::aise_hmac(&long_key[..1024], b"m", 48));
}

#[test]
fn test_personalized_hash_depends_on_context() {
    let a = personalized::aise_personalized_hash(b"app-A", b"msg", 64);
    let b = personalized::aise_personalized_hash(b"app-B", b"msg", 64);
    assert_eq!(a.len(), 64);
    assert_ne!(a, b);
}

#[test]
fn test_ph_cost_zero_and_salt() {
    let a = ph::aise_ph(b"pw", b"salt1", 0, 32);
    let b = ph::aise_ph(b"pw", b"salt2", 0, 32);
    assert_eq!(a.len(), 32);
    assert_ne!(a, b);
}

#[test]
fn test_threshold_mac_depends_on_key_order() {
    let k1: &[u8] = b"share one";
    let k2: &[u8] = b"share two";
    let t12 = threshold::aise_threshold_mac(&[k1, k2], b"msg", 64);
    let t21 = threshold::aise_threshold_mac(&[k2, k1], b"msg", 64);
    let t1 = threshold::aise_threshold_mac(&[k1], b"msg", 64);
    assert_eq!(t12.len(), 64);
    assert_ne!(t12, t21);
    assert_ne!(t12, t1);
    assert_eq!(threshold::aise_threshold_mac(&[], b"msg", 16).len(), 16);
}

#[test]
fn test_tree_single_leaf_is_one_node_hash() {
    let m = b"a small input fits in one leaf";
    let out = tree::aise_tree(m, 64);
    let mut s = sponge::init_with_ext(0x10, 64, &[(66, 0, 1)]);
    sponge::absorb(&mut s, m, 0x10);
    assert_eq!(out, sponge::squeeze(&mut s, 64));
    assert_eq!(tree::aise_tree(m, 100).len(), 100);
}

#[test]
fn test_init_extensions_outside_capacity_are_ignored() {
    let a = sponge::init_with_ext(0x10, 64, &[(66, 5, 6)]);
    let b = sponge::init_with_ext(0x10, 64, &[(66, 5, 6), (10, 1, 1), (200, 1, 1)]);
    assert_eq!(a.lanes, b.lanes);
    let c = sponge::init_with_ext(0x10, 64, &[(67, 5, 6)]);
    assert_ne!(a.lanes, c.lanes);
}

#[test]
fn test_permute_lanes_below_p() {
    let mut s = State::new();
    for i in 0..128 {
        s.lanes[i] = Lane::new(u64::MAX, (i as u64).wrapping_mul(0x9E3779B97F4A7C15));
    }
    permute::permute(&mut s);
    for i in 0..128 {
        assert!(lane_value(s.lanes[i]) < field_p::P);
    }
}

#[test]
fn test_pi_a_distinguishes_one_bit() {
    let mut a = [Lane::new(0, 0); 128];
    let mut b = a;
    b[5].lo ^= 1;
    pi_a::pi_a(&mut a);
    pi_a::pi_a(&mut b);
    assert_ne!(a, b);
}

#[test]
fn test_field_p_exact_values() {
    assert_eq!(field_p::reduce(field_p::P), 0);
    assert_eq!(field_p::reduce(u128::MAX), 1);
    assert_eq!(field_p::reduce(field_p::P + 5), 5);
    assert_eq!(field_p::add(field_p::P - 1, 2), 1);
    assert_eq!(field_p::sub(0, 1), field_p::P - 1);
    assert_eq!(field_p::sub(7, 3), 4);
    assert_eq!(field_p::mul(2, 1 << 126), 1);
    assert_eq!(field_p::mul(field_p::P - 1, field_p::P - 1), 1);
    assert_eq!(field_p::sq(3), 9);
    assert_eq!(field_p::pow5(2), 32);
    assert_eq!(field_p::powd(field_p::pow5(123456789)), 123456789);
    assert_eq!(field_p::powd(0), 0);
}

#[test]
fn test_gf128_inverse_values() {
    let zero = Lane::new(0, 0);
    let one = Lane::new(0, 1);
    assert_eq!(field_b::inv(zero), zero);
    assert_eq!(field_b::inv(one), one);
    for &(hi, lo) in &[(0u64, 2u64), (0xDEADBEEFCAFEBABE, 0x0123456789ABCDEF), (u64::MAX, u64::MAX)] {
        let x = Lane::new(hi, lo);
        assert_eq!(field_b::mul(field_b::inv(x), x), one);
    }
    let x = Lane::new(1, 7);
    let y = Lane::new(3, 9);
    assert_eq!(field_b::add(x, y), Lane::new(2, 14));
}

#[test]
fn test_batch_inv_matches_single_inversions() {
    let mut lanes = [Lane::new(0, 0); 128];
    for i in 0..128 {
        if i % 17 != 3 {
            lanes[i] = Lane::new((i as u64).wrapping_mul(0x9E3779B97F4A7C15), i as u64 + 1);
        }
    }
    let inputs = lanes;
    field_b::batch_inv(&mut lanes);
    for i in 0..128 {
        assert_eq!(lanes[i], field_b::inv(inputs[i]));
    }
}

#[test]
fn test_small_field_exact_values() {
    assert_eq!(field8::mul(0x57, 0x83), 0xC1);
    assert_eq!(field8::mul(0x80, 0x02), 0x1B);
    assert_eq!(field16::mul(0x8000, 0x0002), 0x002B);
    assert_eq!(field16::mul(0x1234, 1), 0x1234);
}

#[test]
fn test_digest_selects_hash_or_xof() {
    let m = b"cli input";
    assert_eq!(aise_digest(m, 64, false), sponge::aise_hash(m, 64));
    assert_eq!(aise_digest(m, 16, false), sponge::aise_hash(m, 16));
    assert_eq!(aise_digest(m, 100, false), sponge::aise_xof(m, 100));
    assert_eq!(aise_digest(m, 16, true), sponge::aise_xof(m, 16));
}

#[test]
fn test_count_set_bits_exact() {
    assert_eq!(avalanche::count_set_bits(Lane::new(0, 0), Lane::new(u64::MAX, 1)), 65);
    assert_eq!(avalanche::count_set_bits(Lane::new(5, 9), Lane::new(5, 9)), 0);
    assert_eq!(avalanche::count_set_bits(Lane::new(0xF0, 0), Lane::new(0x0F, 0)), 8);
}

#[test]
fn test_pi_b_avalanche_one_bit() {
    let mut lanes = [Lane::new(0, 0); 128];
    for i in 0..128 {
        lanes[i] = Lane::new(
            (i as u64 + 1).wrapping_mul(0xDEADBEEFCAFEBABE),
            (i as u64 + 1).wrapping_mul(0x0123456789ABCDEF),
        );
    }
    let flipped = avalanche::avalanche_bits(&lanes);
    assert!(flipped > 128 * 128 / 4, "only {} bits flipped", flipped);
    assert!(flipped < 128 * 128 * 3 / 4, "{} bits flipped", flipped);
}

#[test]
fn test_hmac_key_normalisation() {
    let long_key = vec![0x42u8; 1500];
    let m = b"message";
    let folded = sponge::aise_xof(&long_key, 1024);
    assert_eq!(hmac::aise_hmac(&long_key, m, 32), hmac::aise_hmac(&folded, m, 32));
    let short_key = b"short".to_vec();
    let mut padded = short_key.clone();
    padded.extend_from_slice(&[0u8; 20]);
    assert_eq!(hmac::aise_hmac(&short_key, m, 32), hmac::aise_hmac(&padded, m, 32));
}

#[test]
fn test_pad_distinguishes_message_and_domain() {
    assert_ne!(padding::pad(b"", 0x01), padding::pad(&[0x01, 0x01, 0x01], 0x01));
    assert_ne!(padding::pad(b"ab", 0x01), padding::pad(b"ab", 0x02));
    assert_ne!(padding::pad(b"ab", 0x01), padding::pad(b"ab\x00", 0x01));
}

#[test]
fn test_init_keeps_low_sixteen_bits_of_length() {
    let a = sponge::init(0x00, 5);
    let b = sponge::init(0x00, 5 + 65536);
    assert_eq!(a.lanes, b.lanes);
    let c = sponge::init_with_ext(0x00, 5, &[(66, 1, 2), (66, 3, 4)]);
    let d = sponge::init_with_ext(0x00, 5, &[(66, 3, 4)]);
    assert_eq!(c.lanes, d.lanes);
}

#[test]
fn test_duplex_keyed_by_concatenation() {
    let a = DuplexState::new(b"keyno", b"nce");
    let b = DuplexState::new(b"key", b"nonce");
    assert_eq!(a.s.lanes, b.s.lanes);
}

#[test]
fn test_mix_lanes_b_is_linear() {
    let mut x = [Lane::new(0, 0); 128];
    let mut y = [Lane::new(0, 0); 128];
    let mut z = [Lane::new(0, 0); 128];
    for i in 0..128 {
        x[i] = Lane::new((i as u64).wrapping_mul(0x9E3779B97F4A7C15), !(i as u64));
        y[i] = Lane::new((i as u64 + 7).wrapping_mul(0xC2B2AE3D27D4EB4F), (i as u64) << 3);
        z[i] = field_b::add(x[i], y[i]);
    }
    aise::mds_b::mix_lanes(&mut x);
    aise::mds_b::mix_lanes(&mut y);
    aise::mds_b::mix_lanes(&mut z);
    for i in 0..128 {
        assert_eq!(z[i], field_b::add(x[i], y[i]));
    }
    let mut zero = [Lane::new(0, 0); 128];
    aise::mds_b::mix_lanes(&mut zero);
    assert_eq!(zero, [Lane::new(0, 0); 128]);
}

#[test]
fn test_mix_lanes_c_treats_p_as_zero() {
    let mut a = [field_p::P; 128];
    let mut b = [0u128; 128];
    aise::mds_c::mix_lanes(&mut a);
    aise::mds_c::mix_lanes(&mut b);
    assert_eq!(a, b);
    assert_eq!(b, [0u128; 128]);
    let mut c = [0u128; 128];
    let mut d = [0u128; 128];
    for i in 0..128 {
        c[i] = if i % 3 == 0 { field_p::P } else { i as u128 };
        d[i] = if i % 3 == 0 { 0 } else { i as u128 };
    }
    aise::mds_c::mix_lanes(&mut c);
    aise::mds_c::mix_lanes(&mut d);
    assert_eq!(c, d);
}

#[test]
fn test_sbox_b_fixed_points_zero_and_one() {
    assert_eq!(aise::sbox_b::apply(Lane::new(0, 0)), Lane::new(0, 0));
    assert_eq!(aise::sbox_b::apply(Lane::new(0, 1)), Lane::new(0, 1));
    assert_ne!(aise::sbox_b::apply(Lane::new(0, 2)), Lane::new(0, 2));
}
