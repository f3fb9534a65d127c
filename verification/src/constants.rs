//! The fixed parameters of the permutation: lane routings, round constants and
//! mixing matrices.
//!
//! The routings are affine maps on lane indices modulo 128; the round constants
//! come from a SplitMix64-style generator keyed by layer, round and lane; the
//! mixing matrices are Cauchy matrices over their respective fields.
use vstd::prelude::*;

verus! {

/// Number of rounds of each of the three layers.
pub const ROUNDS: usize = 32;

/// Column mixing matrix of layer B, over GF(2^8).
pub const M_COL: [[u8; 16]; 16] = [
    [0x74, 0xb4, 0xaa, 0x4b, 0x99, 0x2b, 0x60, 0x5f, 0x58, 0x3f, 0xfd, 0xcc, 0xff, 0x40, 0xee, 0xb2],
    [0xb4, 0x74, 0x4b, 0xaa, 0x2b, 0x99, 0x5f, 0x60, 0x3f, 0x58, 0xcc, 0xfd, 0x40, 0xff, 0xb2, 0xee],
    [0xaa, 0x4b, 0x74, 0xb4, 0x60, 0x5f, 0x99, 0x2b, 0xfd, 0xcc, 0x58, 0x3f, 0xee, 0xb2, 0xff, 0x40],
    [0x4b, 0xaa, 0xb4, 0x74, 0x5f, 0x60, 0x2b, 0x99, 0xcc, 0xfd, 0x3f, 0x58, 0xb2, 0xee, 0x40, 0xff],
    [0x99, 0x2b, 0x60, 0x5f, 0x74, 0xb4, 0xaa, 0x4b, 0xff, 0x40, 0xee, 0xb2, 0x58, 0x3f, 0xfd, 0xcc],
    [0x2b, 0x99, 0x5f, 0x60, 0xb4, 0x74, 0x4b, 0xaa, 0x40, 0xff, 0xb2, 0xee, 0x3f, 0x58, 0xcc, 0xfd],
    [0x60, 0x5f, 0x99, 0x2b, 0xaa, 0x4b, 0x74, 0xb4, 0xee, 0xb2, 0xff, 0x40, 0xfd, 0xcc, 0x58, 0x3f],
    [0x5f, 0x60, 0x2b, 0x99, 0x4b, 0xaa, 0xb4, 0x74, 0xb2, 0xee, 0x40, 0xff, 0xcc, 0xfd, 0x3f, 0x58],
    [0x58, 0x3f, 0xfd, 0xcc, 0xff, 0x40, 0xee, 0xb2, 0x74, 0xb4, 0xaa, 0x4b, 0x99, 0x2b, 0x60, 0x5f],
    [0x3f, 0x58, 0xcc, 0xfd, 0x40, 0xff, 0xb2, 0xee, 0xb4, 0x74, 0x4b, 0xaa, 0x2b, 0x99, 0x5f, 0x60],
    [0xfd, 0xcc, 0x58, 0x3f, 0xee, 0xb2, 0xff, 0x40, 0xaa, 0x4b, 0x74, 0xb4, 0x60, 0x5f, 0x99, 0x2b],
    [0xcc, 0xfd, 0x3f, 0x58, 0xb2, 0xee, 0x40, 0xff, 0x4b, 0xaa, 0xb4, 0x74, 0x5f, 0x60, 0x2b, 0x99],
    [0xff, 0x40, 0xee, 0xb2, 0x58, 0x3f, 0xfd, 0xcc, 0x99, 0x2b, 0x60, 0x5f, 0x74, 0xb4, 0xaa, 0x4b],
    [0x40, 0xff, 0xb2, 0xee, 0x3f, 0x58, 0xcc, 0xfd, 0x2b, 0x99, 0x5f, 0x60, 0xb4, 0x74, 0x4b, 0xaa],
    [0xee, 0xb2, 0xff, 0x40, 0xfd, 0xcc, 0x58, 0x3f, 0x60, 0x5f, 0x99, 0x2b, 0xaa, 0x4b, 0x74, 0xb4],
    [0xb2, 0xee, 0x40, 0xff, 0xcc, 0xfd, 0x3f, 0x58, 0x5f, 0x60, 0x2b, 0x99, 0x4b, 0xaa, 0xb4, 0x74],
];

/// Row mixing matrix of layer B, over GF(2^16).
pub const M_ROW: [[u16; 8]; 8] = [
    [0xe01a, 0x492f, 0xd548, 0xe5d1, 0xbfec, 0x3a72, 0xedad, 0x6669],
    [0x492f, 0xe01a, 0xe5d1, 0xd548, 0x3a72, 0xbfec, 0x6669, 0xedad],
    [0xd548, 0xe5d1, 0xe01a, 0x492f, 0xedad, 0x6669, 0xbfec, 0x3a72],
    [0xe5d1, 0xd548, 0x492f, 0xe01a, 0x6669, 0xedad, 0x3a72, 0xbfec],
    [0xbfec, 0x3a72, 0xedad, 0x6669, 0xe01a, 0x492f, 0xd548, 0xe5d1],
    [0x3a72, 0xbfec, 0x6669, 0xedad, 0x492f, 0xe01a, 0xe5d1, 0xd548],
    [0xedad, 0x6669, 0xbfec, 0x3a72, 0xd548, 0xe5d1, 0xe01a, 0x492f],
    [0x6669, 0xedad, 0x3a72, 0xbfec, 0xe5d1, 0xd548, 0x492f, 0xe01a],
];

/// Column mixing matrix of layer C, over GF(p).
pub const M_COL_P: [[u128; 16]; 16] = [
    [0x00000000000000000000000000000001u128, 0x40000000000000000000000000000000u128, 0x55555555555555555555555555555555u128, 0x20000000000000000000000000000000u128, 0x33333333333333333333333333333333u128, 0x6aaaaaaaaaaaaaaaaaaaaaaaaaaaaaaau128, 0x6db6db6db6db6db6db6db6db6db6db6du128, 0x10000000000000000000000000000000u128, 0x71c71c71c71c71c71c71c71c71c71c71u128, 0x59999999999999999999999999999999u128, 0x68ba2e8ba2e8ba2e8ba2e8ba2e8ba2e8u128, 0x35555555555555555555555555555555u128, 0x589d89d89d89d89d89d89d89d89d89d8u128, 0x76db6db6db6db6db6db6db6db6db6db6u128, 0x11111111111111111111111111111111u128, 0x08000000000000000000000000000000u128],
    [0x40000000000000000000000000000000u128, 0x55555555555555555555555555555555u128, 0x20000000000000000000000000000000u128, 0x33333333333333333333333333333333u128, 0x6aaaaaaaaaaaaaaaaaaaaaaaaaaaaaaau128, 0x6db6db6db6db6db6db6db6db6db6db6du128, 0x10000000000000000000000000000000u128, 0x71c71c71c71c71c71c71c71c71c71c71u128, 0x59999999999999999999999999999999u128, 0x68ba2e8ba2e8ba2e8ba2e8ba2e8ba2e8u128, 0x35555555555555555555555555555555u128, 0x589d89d89d89d89d89d89d89d89d89d8u128, 0x76db6db6db6db6db6db6db6db6db6db6u128, 0x11111111111111111111111111111111u128, 0x08000000000000000000000000000000u128, 0x0f0f0f0f0f0f0f0f0f0f0f0f0f0f0f0fu128],
    [0x55555555555555555555555555555555u128, 0x20000000000000000000000000000000u128, 0x33333333333333333333333333333333u128, 0x6aaaaaaaaaaaaaaaaaaaaaaaaaaaaaaau128, 0x6db6db6db6db6db6db6db6db6db6db6du128, 0x10000000000000000000000000000000u128, 0x71c71c71c71c71c71c71c71c71c71c71u128, 0x59999999999999999999999999999999u128, 0x68ba2e8ba2e8ba2e8ba2e8ba2e8ba2e8u128, 0x35555555555555555555555555555555u128, 0x589d89d89d89d89d89d89d89d89d89d8u128, 0x76db6db6db6db6db6db6db6db6db6db6u128, 0x11111111111111111111111111111111u128, 0x08000000000000000000000000000000u128, 0x0f0f0f0f0f0f0f0f0f0f0f0f0f0f0f0fu128, 0x78e38e38e38e38e38e38e38e38e38e38u128],
    [0x20000000000000000000000000000000u128, 0x33333333333333333333333333333333u128, 0x6aaaaaaaaaaaaaaaaaaaaaaaaaaaaaaau128, 0x6db6db6db6db6db6db6db6db6db6db6du128, 0x10000000000000000000000000000000u128, 0x71c71c71c71c71c71c71c71c71c71c71u128, 0x59999999999999999999999999999999u128, 0x68ba2e8ba2e8ba2e8ba2e8ba2e8ba2e8u128, 0x35555555555555555555555555555555u128, 0x589d89d89d89d89d89d89d89d89d89d8u128, 0x76db6db6db6db6db6db6db6db6db6db6u128, 0x11111111111111111111111111111111u128, 0x08000000000000000000000000000000u128, 0x0f0f0f0f0f0f0f0f0f0f0f0f0f0f0f0fu128, 0x78e38e38e38e38e38e38e38e38e38e38u128, 0x79435e50d79435e50d79435e50d79435u128],
    [0x33333333333333333333333333333333u128, 0x6aaaaaaaaaaaaaaaaaaaaaaaaaaaaaaau128, 0x6db6db6db6db6db6db6db6db6db6db6du128, 0x10000000000000000000000000000000u128, 0x71c71c71c71c71c71c71c71c71c71c71u128, 0x59999999999999999999999999999999u128, 0x68ba2e8ba2e8ba2e8ba2e8ba2e8ba2e8u128, 0x35555555555555555555555555555555u128, 0x589d89d89d89d89d89d89d89d89d89d8u128, 0x76db6db6db6db6db6db6db6db6db6db6u128, 0x11111111111111111111111111111111u128, 0x08000000000000000000000000000000u128, 0x0f0f0f0f0f0f0f0f0f0f0f0f0f0f0f0fu128, 0x78e38e38e38e38e38e38e38e38e38e38u128, 0x79435e50d79435e50d79435e50d79435u128, 0x6cccccccccccccccccccccccccccccccu128],
    [0x6aaaaaaaaaaaaaaaaaaaaaaaaaaaaaaau128, 0x6db6db6db6db6db6db6db6db6db6db6du128, 0x10000000000000000000000000000000u128, 0x71c71c71c71c71c71c71c71c71c71c71u128, 0x59999999999999999999999999999999u128, 0x68ba2e8ba2e8ba2e8ba2e8ba2e8ba2e8u128, 0x35555555555555555555555555555555u128, 0x589d89d89d89d89d89d89d89d89d89d8u128, 0x76db6db6db6db6db6db6db6db6db6db6u128, 0x11111111111111111111111111111111u128, 0x08000000000000000000000000000000u128, 0x0f0f0f0f0f0f0f0f0f0f0f0f0f0f0f0fu128, 0x78e38e38e38e38e38e38e38e38e38e38u128, 0x79435e50d79435e50d79435e50d79435u128, 0x6cccccccccccccccccccccccccccccccu128, 0x79e79e79e79e79e79e79e79e79e79e79u128],
    [0x6db6db6db6db6db6db6db6db6db6db6du128, 0x10000000000000000000000000000000u128, 0x71c71c71c71c71c71c71c71c71c71c71u128, 0x59999999999999999999999999999999u128, 0x68ba2e8ba2e8ba2e8ba2e8ba2e8ba2e8u128, 0x35555555555555555555555555555555u128, 0x589d89d89d89d89d89d89d89d89d89d8u128, 0x76db6db6db6db6db6db6db6db6db6db6u128, 0x11111111111111111111111111111111u128, 0x08000000000000000000000000000000u128, 0x0f0f0f0f0f0f0f0f0f0f0f0f0f0f0f0fu128, 0x78e38e38e38e38e38e38e38e38e38e38u128, 0x79435e50d79435e50d79435e50d79435u128, 0x6cccccccccccccccccccccccccccccccu128, 0x79e79e79e79e79e79e79e79e79e79e79u128, 0x345d1745d1745d1745d1745d1745d174u128],
    [0x10000000000000000000000000000000u128, 0x71c71c71c71c71c71c71c71c71c71c71u128, 0x59999999999999999999999999999999u128, 0x68ba2e8ba2e8ba2e8ba2e8ba2e8ba2e8u128, 0x35555555555555555555555555555555u128, 0x589d89d89d89d89d89d89d89d89d89d8u128, 0x76db6db6db6db6db6db6db6db6db6db6u128, 0x11111111111111111111111111111111u128, 0x08000000000000000000000000000000u128, 0x0f0f0f0f0f0f0f0f0f0f0f0f0f0f0f0fu128, 0x78e38e38e38e38e38e38e38e38e38e38u128, 0x79435e50d79435e50d79435e50d79435u128, 0x6cccccccccccccccccccccccccccccccu128, 0x79e79e79e79e79e79e79e79e79e79e79u128, 0x345d1745d1745d1745d1745d1745d174u128, 0x1642c8590b21642c8590b21642c8590bu128],
    [0x71c71c71c71c71c71c71c71c71c71c71u128, 0x59999999999999999999999999999999u128, 0x68ba2e8ba2e8ba2e8ba2e8ba2e8ba2e8u128, 0x35555555555555555555555555555555u128, 0x589d89d89d89d89d89d89d89d89d89d8u128, 0x76db6db6db6db6db6db6db6db6db6db6u128, 0x11111111111111111111111111111111u128, 0x08000000000000000000000000000000u128, 0x0f0f0f0f0f0f0f0f0f0f0f0f0f0f0f0fu128, 0x78e38e38e38e38e38e38e38e38e38e38u128, 0x79435e50d79435e50d79435e50d79435u128, 0x6cccccccccccccccccccccccccccccccu128, 0x79e79e79e79e79e79e79e79e79e79e79u128, 0x345d1745d1745d1745d1745d1745d174u128, 0x1642c8590b21642c8590b21642c8590bu128, 0x5aaaaaaaaaaaaaaaaaaaaaaaaaaaaaaau128],
    [0x59999999999999999999999999999999u128, 0x68ba2e8ba2e8ba2e8ba2e8ba2e8ba2e8u128, 0x35555555555555555555555555555555u128, 0x589d89d89d89d89d89d89d89d89d89d8u128, 0x76db6db6db6db6db6db6db6db6db6db6u128, 0x11111111111111111111111111111111u128, 0x08000000000000000000000000000000u128, 0x0f0f0f0f0f0f0f0f0f0f0f0f0f0f0f0fu128, 0x78e38e38e38e38e38e38e38e38e38e38u128, 0x79435e50d79435e50d79435e50d79435u128, 0x6cccccccccccccccccccccccccccccccu128, 0x79e79e79e79e79e79e79e79e79e79e79u128, 0x345d1745d1745d1745d1745d1745d174u128, 0x1642c8590b21642c8590b21642c8590bu128, 0x5aaaaaaaaaaaaaaaaaaaaaaaaaaaaaaau128, 0x3d70a3d70a3d70a3d70a3d70a3d70a3du128],
    [0x68ba2e8ba2e8ba2e8ba2e8ba2e8ba2e8u128, 0x35555555555555555555555555555555u128, 0x589d89d89d89d89d89d89d89d89d89d8u128, 0x76db6db6db6db6db6db6db6db6db6db6u128, 0x11111111111111111111111111111111u128, 0x08000000000000000000000000000000u128, 0x0f0f0f0f0f0f0f0f0f0f0f0f0f0f0f0fu128, 0x78e38e38e38e38e38e38e38e38e38e38u128, 0x79435e50d79435e50d79435e50d79435u128, 0x6cccccccccccccccccccccccccccccccu128, 0x79e79e79e79e79e79e79e79e79e79e79u128, 0x345d1745d1745d1745d1745d1745d174u128, 0x1642c8590b21642c8590b21642c8590bu128, 0x5aaaaaaaaaaaaaaaaaaaaaaaaaaaaaaau128, 0x3d70a3d70a3d70a3d70a3d70a3d70a3du128, 0x2c4ec4ec4ec4ec4ec4ec4ec4ec4ec4ecu128],
    [0x35555555555555555555555555555555u128, 0x589d89d89d89d89d89d89d89d89d89d8u128, 0x76db6db6db6db6db6db6db6db6db6db6u128, 0x11111111111111111111111111111111u128, 0x08000000000000000000000000000000u128, 0x0f0f0f0f0f0f0f0f0f0f0f0f0f0f0f0fu128, 0x78e38e38e38e38e38e38e38e38e38e38u128, 0x79435e50d79435e50d79435e50d79435u128, 0x6cccccccccccccccccccccccccccccccu128, 0x79e79e79e79e79e79e79e79e79e79e79u128, 0x345d1745d1745d1745d1745d1745d174u128, 0x1642c8590b21642c8590b21642c8590bu128, 0x5aaaaaaaaaaaaaaaaaaaaaaaaaaaaaaau128, 0x3d70a3d70a3d70a3d70a3d70a3d70a3du128, 0x2c4ec4ec4ec4ec4ec4ec4ec4ec4ec4ecu128, 0x7b425ed097b425ed097b425ed097b425u128],
    [0x589d89d89d89d89d89d89d89d89d89d8u128, 0x76db6db6db6db6db6db6db6db6db6db6u128, 0x11111111111111111111111111111111u128, 0x08000000000000000000000000000000u128, 0x0f0f0f0f0f0f0f0f0f0f0f0f0f0f0f0fu128, 0x78e38e38e38e38e38e38e38e38e38e38u128, 0x79435e50d79435e50d79435e50d79435u128, 0x6cccccccccccccccccccccccccccccccu128, 0x79e79e79e79e79e79e79e79e79e79e79u128, 0x345d1745d1745d1745d1745d1745d174u128, 0x1642c8590b21642c8590b21642c8590bu128, 0x5aaaaaaaaaaaaaaaaaaaaaaaaaaaaaaau128, 0x3d70a3d70a3d70a3d70a3d70a3d70a3du128, 0x2c4ec4ec4ec4ec4ec4ec4ec4ec4ec4ecu128, 0x7b425ed097b425ed097b425ed097b425u128, 0x3b6db6db6db6db6db6db6db6db6db6dbu128],
    [0x76db6db6db6db6db6db6db6db6db6db6u128, 0x11111111111111111111111111111111u128, 0x08000000000000000000000000000000u128, 0x0f0f0f0f0f0f0f0f0f0f0f0f0f0f0f0fu128, 0x78e38e38e38e38e38e38e38e38e38e38u128, 0x79435e50d79435e50d79435e50d79435u128, 0x6cccccccccccccccccccccccccccccccu128, 0x79e79e79e79e79e79e79e79e79e79e79u128, 0x345d1745d1745d1745d1745d1745d174u128, 0x1642c8590b21642c8590b21642c8590bu128, 0x5aaaaaaaaaaaaaaaaaaaaaaaaaaaaaaau128, 0x3d70a3d70a3d70a3d70a3d70a3d70a3du128, 0x2c4ec4ec4ec4ec4ec4ec4ec4ec4ec4ecu128, 0x7b425ed097b425ed097b425ed097b425u128, 0x3b6db6db6db6db6db6db6db6db6db6dbu128, 0x2c234f72c234f72c234f72c234f72c23u128],
    [0x11111111111111111111111111111111u128, 0x08000000000000000000000000000000u128, 0x0f0f0f0f0f0f0f0f0f0f0f0f0f0f0f0fu128, 0x78e38e38e38e38e38e38e38e38e38e38u128, 0x79435e50d79435e50d79435e50d79435u128, 0x6cccccccccccccccccccccccccccccccu128, 0x79e79e79e79e79e79e79e79e79e79e79u128, 0x345d1745d1745d1745d1745d1745d174u128, 0x1642c8590b21642c8590b21642c8590bu128, 0x5aaaaaaaaaaaaaaaaaaaaaaaaaaaaaaau128, 0x3d70a3d70a3d70a3d70a3d70a3d70a3du128, 0x2c4ec4ec4ec4ec4ec4ec4ec4ec4ec4ecu128, 0x7b425ed097b425ed097b425ed097b425u128, 0x3b6db6db6db6db6db6db6db6db6db6dbu128, 0x2c234f72c234f72c234f72c234f72c23u128, 0x48888888888888888888888888888888u128],
    [0x08000000000000000000000000000000u128, 0x0f0f0f0f0f0f0f0f0f0f0f0f0f0f0f0fu128, 0x78e38e38e38e38e38e38e38e38e38e38u128, 0x79435e50d79435e50d79435e50d79435u128, 0x6cccccccccccccccccccccccccccccccu128, 0x79e79e79e79e79e79e79e79e79e79e79u128, 0x345d1745d1745d1745d1745d1745d174u128, 0x1642c8590b21642c8590b21642c8590bu128, 0x5aaaaaaaaaaaaaaaaaaaaaaaaaaaaaaau128, 0x3d70a3d70a3d70a3d70a3d70a3d70a3du128, 0x2c4ec4ec4ec4ec4ec4ec4ec4ec4ec4ecu128, 0x7b425ed097b425ed097b425ed097b425u128, 0x3b6db6db6db6db6db6db6db6db6db6dbu128, 0x2c234f72c234f72c234f72c234f72c23u128, 0x48888888888888888888888888888888u128, 0x294a5294a5294a5294a5294a5294a529u128],
];

/// Row mixing matrix of layer C, over GF(p).
pub const M_ROW_P: [[u128; 8]; 8] = [
    [0x0f0f0f0f0f0f0f0f0f0f0f0f0f0f0f0fu128, 0x78e38e38e38e38e38e38e38e38e38e38u128, 0x79435e50d79435e50d79435e50d79435u128, 0x6cccccccccccccccccccccccccccccccu128, 0x79e79e79e79e79e79e79e79e79e79e79u128, 0x345d1745d1745d1745d1745d1745d174u128, 0x1642c8590b21642c8590b21642c8590bu128, 0x5aaaaaaaaaaaaaaaaaaaaaaaaaaaaaaau128],
    [0x78e38e38e38e38e38e38e38e38e38e38u128, 0x79435e50d79435e50d79435e50d79435u128, 0x6cccccccccccccccccccccccccccccccu128, 0x79e79e79e79e79e79e79e79e79e79e79u128, 0x345d1745d1745d1745d1745d1745d174u128, 0x1642c8590b21642c8590b21642c8590bu128, 0x5aaaaaaaaaaaaaaaaaaaaaaaaaaaaaaau128, 0x3d70a3d70a3d70a3d70a3d70a3d70a3du128],
    [0x79435e50d79435e50d79435e50d79435u128, 0x6cccccccccccccccccccccccccccccccu128, 0x79e79e79e79e79e79e79e79e79e79e79u128, 0x345d1745d1745d1745d1745d1745d174u128, 0x1642c8590b21642c8590b21642c8590bu128, 0x5aaaaaaaaaaaaaaaaaaaaaaaaaaaaaaau128, 0x3d70a3d70a3d70a3d70a3d70a3d70a3du128, 0x2c4ec4ec4ec4ec4ec4ec4ec4ec4ec4ecu128],
    [0x6cccccccccccccccccccccccccccccccu128, 0x79e79e79e79e79e79e79e79e79e79e79u128, 0x345d1745d1745d1745d1745d1745d174u128, 0x1642c8590b21642c8590b21642c8590bu128, 0x5aaaaaaaaaaaaaaaaaaaaaaaaaaaaaaau128, 0x3d70a3d70a3d70a3d70a3d70a3d70a3du128, 0x2c4ec4ec4ec4ec4ec4ec4ec4ec4ec4ecu128, 0x7b425ed097b425ed097b425ed097b425u128],
    [0x79e79e79e79e79e79e79e79e79e79e79u128, 0x345d1745d1745d1745d1745d1745d174u128, 0x1642c8590b21642c8590b21642c8590bu128, 0x5aaaaaaaaaaaaaaaaaaaaaaaaaaaaaaau128, 0x3d70a3d70a3d70a3d70a3d70a3d70a3du128, 0x2c4ec4ec4ec4ec4ec4ec4ec4ec4ec4ecu128, 0x7b425ed097b425ed097b425ed097b425u128, 0x3b6db6db6db6db6db6db6db6db6db6dbu128],
    [0x345d1745d1745d1745d1745d1745d174u128, 0x1642c8590b21642c8590b21642c8590bu128, 0x5aaaaaaaaaaaaaaaaaaaaaaaaaaaaaaau128, 0x3d70a3d70a3d70a3d70a3d70a3d70a3du128, 0x2c4ec4ec4ec4ec4ec4ec4ec4ec4ec4ecu128, 0x7b425ed097b425ed097b425ed097b425u128, 0x3b6db6db6db6db6db6db6db6db6db6dbu128, 0x2c234f72c234f72c234f72c234f72c23u128],
    [0x1642c8590b21642c8590b21642c8590bu128, 0x5aaaaaaaaaaaaaaaaaaaaaaaaaaaaaaau128, 0x3d70a3d70a3d70a3d70a3d70a3d70a3du128, 0x2c4ec4ec4ec4ec4ec4ec4ec4ec4ec4ecu128, 0x7b425ed097b425ed097b425ed097b425u128, 0x3b6db6db6db6db6db6db6db6db6db6dbu128, 0x2c234f72c234f72c234f72c234f72c23u128, 0x48888888888888888888888888888888u128],
    [0x5aaaaaaaaaaaaaaaaaaaaaaaaaaaaaaau128, 0x3d70a3d70a3d70a3d70a3d70a3d70a3du128, 0x2c4ec4ec4ec4ec4ec4ec4ec4ec4ec4ecu128, 0x7b425ed097b425ed097b425ed097b425u128, 0x3b6db6db6db6db6db6db6db6db6db6dbu128, 0x2c234f72c234f72c234f72c234f72c23u128, 0x48888888888888888888888888888888u128, 0x294a5294a5294a5294a5294a5294a529u128],
];

/// The lane routing of layer A: lane `i` of the next state is lane `sigma_a(i)`.
pub open spec fn spec_sigma_a(i: int) -> int {
    (37 * i + 11) % 128
}

/// The lane routing of layer B.
pub open spec fn spec_sigma_b(i: int) -> int {
    (45 * i + 29) % 128
}

/// The lane routing of layer C.
pub open spec fn spec_sigma_c(i: int) -> int {
    (53 * i + 83) % 128
}

/// The inverse of the layer A routing.
pub open spec fn spec_sigma_a_inv(j: int) -> int {
    (45 * (j + 117)) % 128
}

/// Layer A routing.
pub fn sigma_a(i: usize) -> (r: usize)
    requires
        i < 128,
    ensures
        r as int == spec_sigma_a(i as int),
        r < 128,
{
    (i * 37 + 11) % 128
}

/// The inverse of the layer B routing.
pub open spec fn spec_sigma_b_inv(j: int) -> int {
    (37 * (j + 99)) % 128
}

/// Layer B routing.
pub fn sigma_b(i: usize) -> (r: usize)
    requires
        i < 128,
    ensures
        r as int == spec_sigma_b(i as int),
        r < 128,
{
    (i * 45 + 29) % 128
}

/// The inverse of the layer C routing.
pub open spec fn spec_sigma_c_inv(j: int) -> int {
    (29 * (j + 45)) % 128
}

/// Layer C routing.
pub fn sigma_c(i: usize) -> (r: usize)
    requires
        i < 128,
    ensures
        r as int == spec_sigma_c(i as int),
        r < 128,
{
    (i * 53 + 83) % 128
}

/// The affine index maps modulo 128, on 7-bit indices: no fixed point,
/// injective, and undone by the inverse maps.
proof fn lemma_affine_bits(x: u64, y: u64)
    by (bit_vector)
    requires
        x < 128,
        y < 128,
    ensures
        ((37 * x + 11) % 128) as u64 != x,
        ((45 * x + 29) % 128) as u64 != x,
        ((53 * x + 83) % 128) as u64 != x,
        ((37 * x + 11) % 128) as u64 == ((37 * y + 11) % 128) as u64 ==> x == y,
        ((45 * x + 29) % 128) as u64 == ((45 * y + 29) % 128) as u64 ==> x == y,
        ((53 * x + 83) % 128) as u64 == ((53 * y + 83) % 128) as u64 ==> x == y,
        (((45 * (y + 117)) % 128) as u64) < 128 && ((37 * (((45 * (y + 117)) % 128) as u64) + 11) % 128) as u64 == y,
        (((37 * (y + 99)) % 128) as u64) < 128 && ((45 * (((37 * (y + 99)) % 128) as u64) + 29) % 128) as u64 == y,
        (((29 * (y + 45)) % 128) as u64) < 128 && ((53 * (((29 * (y + 45)) % 128) as u64) + 83) % 128) as u64 == y,
{
}

/// Each routing is a bijection of the 128 lane indices without a fixed point:
/// no lane stays in place, no two lanes go to the same place, and every place is filled.
pub proof fn lemma_sigmas_are_derangements()
    ensures
        forall|i: int| 0 <= i < 128 ==> 0 <= #[trigger] spec_sigma_a(i) < 128 && spec_sigma_a(i) != i,
        forall|i: int| 0 <= i < 128 ==> 0 <= #[trigger] spec_sigma_b(i) < 128 && spec_sigma_b(i) != i,
        forall|i: int| 0 <= i < 128 ==> 0 <= #[trigger] spec_sigma_c(i) < 128 && spec_sigma_c(i) != i,
        forall|i: int, j: int|
            0 <= i < 128 && 0 <= j < 128 && #[trigger] spec_sigma_a(i) == #[trigger] spec_sigma_a(j) ==> i == j,
        forall|i: int, j: int|
            0 <= i < 128 && 0 <= j < 128 && #[trigger] spec_sigma_b(i) == #[trigger] spec_sigma_b(j) ==> i == j,
        forall|i: int, j: int|
            0 <= i < 128 && 0 <= j < 128 && #[trigger] spec_sigma_c(i) == #[trigger] spec_sigma_c(j) ==> i == j,
        forall|j: int| 0 <= j < 128 ==> 0 <= #[trigger] spec_sigma_a_inv(j) < 128 && spec_sigma_a(spec_sigma_a_inv(j)) == j,
        forall|j: int| 0 <= j < 128 ==> 0 <= #[trigger] spec_sigma_b_inv(j) < 128 && spec_sigma_b(spec_sigma_b_inv(j)) == j,
        forall|j: int| 0 <= j < 128 ==> 0 <= #[trigger] spec_sigma_c_inv(j) < 128 && spec_sigma_c(spec_sigma_c_inv(j)) == j,
{
    assert forall|i: int| 0 <= i < 128 implies 0 <= #[trigger] spec_sigma_a(i) < 128 && spec_sigma_a(i) != i by {
        let x = i as u64;
        lemma_affine_bits(x, 0);
    }
    assert forall|i: int| 0 <= i < 128 implies 0 <= #[trigger] spec_sigma_b(i) < 128 && spec_sigma_b(i) != i by {
        let x = i as u64;
        lemma_affine_bits(x, 0);
    }
    assert forall|i: int| 0 <= i < 128 implies 0 <= #[trigger] spec_sigma_c(i) < 128 && spec_sigma_c(i) != i by {
        let x = i as u64;
        lemma_affine_bits(x, 0);
    }
    assert forall|i: int, j: int|
        0 <= i < 128 && 0 <= j < 128 && #[trigger] spec_sigma_a(i) == #[trigger] spec_sigma_a(j) implies i == j by {
        let x = i as u64;
        let y = j as u64;
        lemma_affine_bits(x, y);
    }
    assert forall|i: int, j: int|
        0 <= i < 128 && 0 <= j < 128 && #[trigger] spec_sigma_b(i) == #[trigger] spec_sigma_b(j) implies i == j by {
        let x = i as u64;
        let y = j as u64;
        lemma_affine_bits(x, y);
    }
    assert forall|i: int, j: int|
        0 <= i < 128 && 0 <= j < 128 && #[trigger] spec_sigma_c(i) == #[trigger] spec_sigma_c(j) implies i == j by {
        let x = i as u64;
        let y = j as u64;
        lemma_affine_bits(x, y);
    }
    assert forall|j: int| 0 <= j < 128 implies 0 <= #[trigger] spec_sigma_a_inv(j) < 128 && spec_sigma_a(spec_sigma_a_inv(j)) == j by {
        let y = j as u64;
        lemma_affine_bits(0, y);
    }
    assert forall|j: int| 0 <= j < 128 implies 0 <= #[trigger] spec_sigma_b_inv(j) < 128 && spec_sigma_b(spec_sigma_b_inv(j)) == j by {
        let y = j as u64;
        lemma_affine_bits(0, y);
    }
    assert forall|j: int| 0 <= j < 128 implies 0 <= #[trigger] spec_sigma_c_inv(j) < 128 && spec_sigma_c(spec_sigma_c_inv(j)) == j by {
        let y = j as u64;
        lemma_affine_bits(0, y);
    }
}

/// The SplitMix64 output function.
pub open spec fn spec_mix64(z: u64) -> u64 {
    let z1 = (z ^ (z >> 30u64)).wrapping_mul(0xbf58_476d_1ce4_e5b9u64);
    let z2 = (z1 ^ (z1 >> 27u64)).wrapping_mul(0x94d0_49bb_1331_11ebu64);
    z2 ^ (z2 >> 31u64)
}

/// The SplitMix64 output function.
pub fn mix64(z: u64) -> (r: u64)
    ensures
        r == spec_mix64(z),
{
    let z1 = (z ^ (z >> 30u64)).wrapping_mul(0xbf58_476d_1ce4_e5b9u64);
    let z2 = (z1 ^ (z1 >> 27u64)).wrapping_mul(0x94d0_49bb_1331_11ebu64);
    z2 ^ (z2 >> 31u64)
}

/// The generator key of the constant of a layer, round and lane.
pub open spec fn rc_key(layer: u64, r: int, i: int) -> u64 {
    (layer * 0x100_0000 + r * 0x100 + i) as u64
}

/// The round constant (hi, lo) of a layer, round and lane.
pub open spec fn spec_round_constant(layer: u64, r: int, i: int) -> (u64, u64) {
    (spec_mix64((2 * rc_key(layer, r, i)) as u64), spec_mix64((2 * rc_key(layer, r, i) + 1) as u64))
}

/// The round constant (hi, lo) of a layer, round and lane.
fn round_constant(layer: u64, r: usize, i: usize) -> (c: (u64, u64))
    requires
        layer < 4,
        r < 32,
        i < 128,
    ensures
        c == spec_round_constant(layer, r as int, i as int),
{
    let key = layer * 0x100_0000 + (r as u64) * 0x100 + (i as u64);
    (mix64(2 * key), mix64(2 * key + 1))
}

/// Layer A round constant for round `r`, lane `i`.
pub open spec fn spec_rc_a(r: int, i: int) -> (u64, u64) {
    spec_round_constant(1, r, i)
}

/// Layer B round constant for round `r`, lane `i`.
pub open spec fn spec_rc_b(r: int, i: int) -> (u64, u64) {
    spec_round_constant(2, r, i)
}

/// Layer C round constant for round `r`, lane `i`, as an element of GF(p)
/// (its top two bits are cleared, so it lies below 2^126).
pub open spec fn spec_rc_c(r: int, i: int) -> u128 {
    let c = spec_round_constant(3, r, i);
    (((c.0 & 0x3fff_ffff_ffff_ffffu64) as u128) << 64u32) | (c.1 as u128)
}

/// Layer A round constant.
pub fn rc_a(r: usize, i: usize) -> (c: (u64, u64))
    requires
        r < 32,
        i < 128,
    ensures
        c == spec_rc_a(r as int, i as int),
{
    round_constant(1, r, i)
}

/// Layer B round constant.
pub fn rc_b(r: usize, i: usize) -> (c: (u64, u64))
    requires
        r < 32,
        i < 128,
    ensures
        c == spec_rc_b(r as int, i as int),
{
    round_constant(2, r, i)
}

/// Clearing the top two bits of the upper half keeps a value below 2^126.
proof fn lemma_clear_top_bits(hi: u64, lo: u64)
    by (bit_vector)
    ensures
        ((((hi & 0x3fff_ffff_ffff_ffffu64) as u128) << 64u32) | (lo as u128))
            < 0x4000_0000_0000_0000_0000_0000_0000_0000u128,
{
}

/// Layer C round constant.
pub fn rc_c(r: usize, i: usize) -> (c: u128)
    requires
        r < 32,
        i < 128,
    ensures
        c == spec_rc_c(r as int, i as int),
        c < 0x4000_0000_0000_0000_0000_0000_0000_0000u128,
{
    let (hi, lo) = round_constant(3, r, i);
    let h = hi & 0x3fff_ffff_ffff_ffffu64;
    proof {
        lemma_clear_top_bits(hi, lo);
    }
    ((h as u128) << 64u32) | (lo as u128)
}

} // verus!
