//! Multiplication in the binary fields and arithmetic modulo p.

use aise::field16;
use aise::field8;
use aise::field_b;
use aise::field_p;
use aise::state::Lane;
use rand::Rng;

fn mul8_reference(mut a: u8, mut b: u8) -> u8 {
    let mut p = 0;
    for _ in 0..8 {
        if b & 1 != 0 {
            p ^= a;
        }
        let hi = a & 0x80;
        a <<= 1;
        if hi != 0 {
            a ^= 0x1B;
        }
        b >>= 1;
    }
    p
}

fn mul16_reference(mut a: u16, mut b: u16) -> u16 {
    let mut p = 0;
    for _ in 0..16 {
        if b & 1 != 0 {
            p ^= a;
        }
        let hi = a & 0x8000;
        a <<= 1;
        if hi != 0 {
            a ^= 0x002B;
        }
        b >>= 1;
    }
    p
}

#[test]
fn test_field8_mul_exhaustive() {
    for a in 0..=255u8 {
        for b in 0..=255u8 {
            let expected = mul8_reference(a, b);
            let actual = field8::mul(a, b);
            assert_eq!(
                expected, actual,
                "GF(2^8) mul mismatch: a={:#04x}, b={:#04x}, expected={:#04x}, actual={:#04x}",
                a, b, expected, actual
            );
        }
    }
}

#[test]
fn test_field16_mul_random() {
    let mut rng = rand::thread_rng();
    for _ in 0..1_000_000 {
        let a: u16 = rng.gen();
        let b: u16 = rng.gen();
        let expected = mul16_reference(a, b);
        let actual = field16::mul(a, b);
        assert_eq!(
            expected, actual,
            "GF(2^16) mul mismatch: a={:#06x}, b={:#06x}, expected={:#06x}, actual={:#06x}",
            a, b, expected, actual
        );
    }
}

const GF128_REFERENCE: [((u64, u64), (u64, u64), (u64, u64)); 10] = [
    ((0x0000000000000000, 0x0000000000000000), (0x0000000000000000, 0x0000000000000000), (0x0000000000000000, 0x0000000000000000)),
    ((0x0000000000000000, 0x0000000000000000), (0xdeadbeefcafebabe, 0x0123456789abcdef), (0x0000000000000000, 0x0000000000000000)),
    ((0xffffffffffffffff, 0xffffffffffffffff), (0xffffffffffffffff, 0xffffffffffffffff), (0x5555555555555555, 0x555555555555402f)),
    ((0x8000000000000000, 0x0000000000000000), (0x8000000000000000, 0x0000000000000000), (0xc000000000000000, 0x0000000000001067)),
    ((0x0000000000000000, 0x0000000000000001), (0x0000000000000000, 0x0000000000000001), (0x0000000000000000, 0x0000000000000001)),
    ((0x8000000000000000, 0x0000000000000000), (0x0000000000000000, 0x0000000000000001), (0x8000000000000000, 0x0000000000000000)),
    ((0x0000000000000000, 0x0000000000000001), (0x8000000000000000, 0x0000000000000000), (0x8000000000000000, 0x0000000000000000)),
    ((0xdeadbeefcafebabe, 0x0123456789abcdef), (0xcafebabedeadbeef, 0xfedcba9876543210), (0xb372cea992f32822, 0xe6c46ee37f795f48)),
    ((0x0000000000000000, 0x0000000000000087), (0x0000000000000000, 0x0000000000000087), (0x0000000000000000, 0x0000000000004015)),
    ((0x8000000000000000, 0x0000000000000000), (0xffffffffffffffff, 0xffffffffffffffff), (0x0000000000000000, 0x0000000000001fc7)),
];

#[test]
fn test_gf128_mul_cross_check_python() {
    for (i, &(a, b, expected)) in GF128_REFERENCE.iter().enumerate() {
        let la = Lane::new(a.0, a.1);
        let lb = Lane::new(b.0, b.1);
        let result = field_b::mul(la, lb);
        assert_eq!(
            (result.hi, result.lo),
            expected,
            "GF(2^128) mul cross-check failed at case {} (a={:?}, b={:?}): got ({:#018x}, {:#018x}), expected ({:#018x}, {:#018x})",
            i, a, b, result.hi, result.lo, expected.0, expected.1
        );
    }
}

#[test]
fn test_gf128_mul_edge_zero() {
    let zero = Lane::new(0, 0);
    let nonzero = Lane::new(0xDEADBEEFCAFEBABE, 0x0123456789ABCDEF);
    let r = field_b::mul(zero, zero);
    assert_eq!((r.hi, r.lo), (0, 0), "0 * 0 should be 0");
    let r = field_b::mul(zero, nonzero);
    assert_eq!((r.hi, r.lo), (0, 0), "0 * x should be 0");
    let r = field_b::mul(nonzero, zero);
    assert_eq!((r.hi, r.lo), (0, 0), "x * 0 should be 0");
}

#[test]
fn test_gf128_mul_edge_identity() {
    let one = Lane::new(0, 1);
    let val = Lane::new(0xDEADBEEFCAFEBABE, 0x0123456789ABCDEF);
    let r = field_b::mul(one, val);
    assert_eq!((r.hi, r.lo), (val.hi, val.lo), "1 * x should be x");
    let r = field_b::mul(val, one);
    assert_eq!((r.hi, r.lo), (val.hi, val.lo), "x * 1 should be x");
}

#[test]
fn test_gf128_mul_edge_all_ones() {
    let all_ones = Lane::new(u64::MAX, u64::MAX);
    let r = field_b::mul(all_ones, all_ones);
    assert_eq!(
        (r.hi, r.lo),
        (0x5555555555555555, 0x555555555555402f),
        "all-ones * all-ones mismatch"
    );
}

#[test]
fn test_gf128_mul_boundary_top_bit() {
    let top = Lane::new(0x8000000000000000, 0);
    let r = field_b::mul(top, top);
    assert_eq!(
        (r.hi, r.lo),
        (0xc000000000000000, 0x0000000000001067),
        "top-bit * top-bit (x^254 mod P) mismatch"
    );
    let one = Lane::new(0, 1);
    let r = field_b::mul(top, one);
    assert_eq!((r.hi, r.lo), (0x8000000000000000, 0), "top-bit * 1 should be top-bit");
}

#[test]
fn test_gf128_mul_boundary_bottom_bit() {
    let bottom = Lane::new(0, 1);
    let r = field_b::mul(bottom, bottom);
    assert_eq!((r.hi, r.lo), (0, 1), "1 * 1 should be 1");
}

#[test]
fn test_gf128_mul_boundary_single_bits() {
    let x64 = Lane::new(1, 0);
    let r = field_b::mul(x64, x64);
    assert_eq!((r.hi, r.lo), (0, 0x87), "x^64 * x^64 = x^128 mod P should be 0x87");
    let x1 = Lane::new(0, 2);
    let x127 = Lane::new(0x8000000000000000, 0);
    let r = field_b::mul(x1, x127);
    assert_eq!((r.hi, r.lo), (0, 0x87), "x^1 * x^127 = x^128 mod P should be 0x87");
    let r2 = field_b::mul(x127, x1);
    assert_eq!(
        (r.hi, r.lo),
        (r2.hi, r2.lo),
        "Commutativity violation: x^1 * x^127 != x^127 * x^1"
    );
}

#[test]
fn test_gf128_mul_commutativity_random() {
    let mut rng = rand::thread_rng();
    for _ in 0..10000 {
        let a = Lane::new(rng.gen(), rng.gen());
        let b = Lane::new(rng.gen(), rng.gen());
        let ab = field_b::mul(a, b);
        let ba = field_b::mul(b, a);
        assert_eq!((ab.hi, ab.lo), (ba.hi, ba.lo), "Commutativity failure: a={:?}, b={:?}", a, b);
    }
}

#[test]
fn test_gf128_mul_matches_portable() {
    let mut rng = rand::thread_rng();
    for trial in 0..10000 {
        let a = Lane::new(rng.gen(), rng.gen());
        let b = Lane::new(rng.gen(), rng.gen());
        let fast = field_b::mul(a, b);
        let slow = field_b::mul_portable(a, b);
        assert_eq!(
            (fast.hi, fast.lo),
            (slow.hi, slow.lo),
            "mul vs mul_portable mismatch at trial {}: a=({:#018x},{:#018x}), b=({:#018x},{:#018x})",
            trial, a.hi, a.lo, b.hi, b.lo
        );
    }
}

#[test]
fn test_gf128_mul_portable_matches_reference() {
    for (i, &(a, b, expected)) in GF128_REFERENCE.iter().enumerate() {
        let la = Lane::new(a.0, a.1);
        let lb = Lane::new(b.0, b.1);
        let result = field_b::mul_portable(la, lb);
        assert_eq!((result.hi, result.lo), expected, "mul_portable cross-check failed at case {}", i);
    }
}

#[test]
fn test_sq_matches_mul() {
    let edge_cases = [
        Lane::new(0, 0),
        Lane::new(u64::MAX, u64::MAX),
        Lane::new(0x8000000000000000, 0),
        Lane::new(0, 1),
    ];
    for (i, &a) in edge_cases.iter().enumerate() {
        let fast = field_b::sq(a);
        let slow = field_b::mul(a, a);
        assert_eq!(
            (fast.hi, fast.lo),
            (slow.hi, slow.lo),
            "sq vs mul mismatch at edge case {}: a=({:#018x},{:#018x})",
            i, a.hi, a.lo
        );
    }
    let mut rng = rand::thread_rng();
    for trial in 0..10000 {
        let a = Lane::new(rng.gen(), rng.gen());
        let fast = field_b::sq(a);
        let slow = field_b::mul(a, a);
        assert_eq!(
            (fast.hi, fast.lo),
            (slow.hi, slow.lo),
            "sq vs mul mismatch at random trial {}: a=({:#018x},{:#018x})",
            trial, a.hi, a.lo
        );
    }
}

#[test]
fn test_field_p_arithmetic() {
    let a = field_p::add(10, 20);
    assert_eq!(a, 30);
}

#[test]
fn test_powd_matches_binary() {
    let mut rng = 1u128;
    assert_eq!(field_p::powd(0), field_p::powd_binary_fallback(0), "Mismatch on zero");
    assert_eq!(field_p::powd(1), field_p::powd_binary_fallback(1), "Mismatch on 1");
    assert_eq!(
        field_p::powd(field_p::P - 1),
        field_p::powd_binary_fallback(field_p::P - 1),
        "Mismatch on P-1"
    );
    assert_eq!(field_p::powd(1 << 126), field_p::powd_binary_fallback(1 << 126), "Mismatch on top bit");
    assert_eq!(field_p::powd(2), field_p::powd_binary_fallback(2), "Mismatch on bottom bit");
    for _ in 0..100_000 {
        rng = rng.wrapping_mul(0xDEADBEEFCAFEBABE0123456789ABCDEF).wrapping_add(1);
        let a = rng & field_p::P;
        let expected = field_p::powd_binary_fallback(a);
        let actual = field_p::powd(a);
        assert_eq!(actual, expected, "Mismatch at a={}", a);
    }
}
