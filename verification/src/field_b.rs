//! Arithmetic in the binary field GF(2^128) with modulus
//! P(x) = x^128 + x^7 + x^2 + x + 1.
//!
//! A `Lane` holds an element: `hi` carries the coefficients of x^127..x^64 and
//! `lo` those of x^63..x^0. In specifications an element is the `u128` whose
//! bit `k` is the coefficient of x^k.
use crate::state::{lane_val, Lane};
use vstd::arithmetic::power2::*;
use vstd::prelude::*;

verus! {

/// Multiplication by `x` modulo P(x): shift left and fold the carried-out
/// coefficient of x^128 back as x^7 + x^2 + x + 1.
pub open spec fn xtime(a: u128) -> u128 {
    if a >> 127u32 == 1 {
        (a << 1u32) ^ 0x87u128
    } else {
        a << 1u32
    }
}

/// The product of two field elements: the sum, over the set bits `i` of `b`,
/// of `a * x^i`, each `a * x^i` obtained from `a` by `i` applications of `xtime`.
pub open spec fn gf_mul(a: u128, b: u128) -> u128
    decreases b,
{
    if b == 0 {
        0
    } else {
        let rest = gf_mul(xtime(a), b / 2);
        if b % 2 == 1 {
            a ^ rest
        } else {
            rest
        }
    }
}

/// `a^e` in the field (with `a^0 = 1`).
pub open spec fn gf_pow(a: u128, e: nat) -> u128
    decreases e,
{
    if e == 0 {
        1
    } else {
        gf_mul(gf_pow(a, (e - 1) as nat), a)
    }
}

proof fn lemma_xtime_linear(a: u128, c: u128)
    by (bit_vector)
    ensures
        xtime(a ^ c) == xtime(a) ^ xtime(c),
        xtime(0) == 0,
{
}

/// XOR identities on 128-bit values.
pub proof fn lemma_xor128(a: u128, b: u128, c: u128, d: u128)
    by (bit_vector)
    ensures
        a ^ 0u128 == a,
        0u128 ^ a == a,
        a ^ b == b ^ a,
        (a ^ b) ^ c == a ^ (b ^ c),
        (a ^ b) ^ (c ^ d) == (a ^ c) ^ (b ^ d),
{
}

/// How a value is rebuilt from its half and its low bit.
proof fn lemma_halving(b: u128)
    by (bit_vector)
    ensures
        xtime(1) == 2u128,
        xtime(b / 2) == (b / 2) << 1u32,
        b % 2 == 1 ==> 1u128 ^ ((b / 2) << 1u32) == b,
        b % 2 != 1 ==> ((b / 2) << 1u32) == b,
        xtime(b / 2) ^ (if b % 2 == 1 { 1u128 } else { 0u128 }) == b,
{
}

/// Zero annihilates on both sides.
pub proof fn lemma_gf_mul_zero(a: u128)
    ensures
        gf_mul(a, 0) == 0,
        gf_mul(0, a) == 0,
    decreases a,
{
    if a != 0 {
        lemma_gf_mul_zero(a / 2);
        lemma_xtime_linear(0, 0);
        lemma_xor128(0, 0, 0, 0);
    }
}

/// The product is additive (XOR-linear) in its left argument.
pub proof fn lemma_gf_mul_linear_left(a: u128, c: u128, b: u128)
    ensures
        gf_mul(a ^ c, b) == gf_mul(a, b) ^ gf_mul(c, b),
    decreases b,
{
    if b == 0 {
        lemma_xor128(0, 0, 0, 0);
    } else {
        lemma_xtime_linear(a, c);
        lemma_gf_mul_linear_left(xtime(a), xtime(c), b / 2);
        let ra = gf_mul(xtime(a), b / 2);
        let rc = gf_mul(xtime(c), b / 2);
        lemma_xor128(a, c, ra, rc);
    }
}

/// Multiplying the left factor by `x` multiplies the product by `x`.
pub proof fn lemma_gf_mul_xtime_left(a: u128, b: u128)
    ensures
        gf_mul(xtime(a), b) == xtime(gf_mul(a, b)),
    decreases b,
{
    if b == 0 {
        lemma_xtime_linear(0, 0);
    } else {
        lemma_gf_mul_xtime_left(xtime(a), b / 2);
        lemma_xtime_linear(a, gf_mul(xtime(a), b / 2));
    }
}

/// One is a right identity.
pub proof fn lemma_gf_mul_one_right(a: u128)
    ensures
        gf_mul(a, 1) == a,
{
    lemma_gf_mul_zero(xtime(a));
    lemma_xor128(a, 0, 0, 0);
}

/// One is a left identity.
pub proof fn lemma_gf_mul_one_left(b: u128)
    ensures
        gf_mul(1, b) == b,
    decreases b,
{
    if b != 0 {
        lemma_gf_mul_one_left(b / 2);
        lemma_gf_mul_xtime_left(1, b / 2);
        lemma_halving(b);
    }
}

/// Multiplication is commutative.
pub proof fn lemma_gf_mul_commutative(a: u128, b: u128)
    ensures
        gf_mul(a, b) == gf_mul(b, a),
    decreases b,
{
    if b == 0 {
        lemma_gf_mul_zero(a);
    } else {
        let h = b / 2;
        let bit: u128 = if b % 2 == 1 { 1 } else { 0 };
        lemma_gf_mul_xtime_left(a, h);
        lemma_gf_mul_commutative(a, h);
        lemma_gf_mul_xtime_left(h, a);
        lemma_halving(b);
        lemma_gf_mul_linear_left(xtime(h), bit, a);
        lemma_gf_mul_one_left(a);
        lemma_gf_mul_zero(a);
        let r = gf_mul(xtime(h), a);
        lemma_xor128(r, 0, 0, 0);
        lemma_xor128(a, r, 0, 0);
    }
}

/// The product is additive (XOR-linear) in its right argument.
pub proof fn lemma_gf_mul_linear_right(a: u128, b: u128, c: u128)
    ensures
        gf_mul(a, b ^ c) == gf_mul(a, b) ^ gf_mul(a, c),
{
    lemma_gf_mul_commutative(a, b ^ c);
    lemma_gf_mul_linear_left(b, c, a);
    lemma_gf_mul_commutative(a, b);
    lemma_gf_mul_commutative(a, c);
}

/// Multiplication by `x` may be moved between the factors.
pub proof fn lemma_gf_mul_xtime_swap(a: u128, d: u128)
    ensures
        gf_mul(xtime(a), d) == gf_mul(a, xtime(d)),
{
    lemma_gf_mul_commutative(a, xtime(d));
    lemma_gf_mul_xtime_left(d, a);
    lemma_gf_mul_commutative(d, a);
    lemma_gf_mul_xtime_left(a, d);
}

/// Multiplication is associative.
pub proof fn lemma_gf_mul_associative(a: u128, b: u128, c: u128)
    ensures
        gf_mul(gf_mul(a, b), c) == gf_mul(a, gf_mul(b, c)),
    decreases c,
{
    if c == 0 {
        lemma_gf_mul_zero(gf_mul(a, b));
        lemma_gf_mul_zero(b);
        lemma_gf_mul_zero(a);
    } else {
        let h = c / 2;
        lemma_gf_mul_xtime_left(a, b);
        lemma_gf_mul_associative(xtime(a), b, h);
        let d = gf_mul(b, h);
        lemma_gf_mul_xtime_left(b, h);
        lemma_gf_mul_xtime_swap(a, d);
        let rest = gf_mul(xtime(b), h);
        if c % 2 == 1 {
            lemma_gf_mul_linear_right(a, b, rest);
        } else {
            lemma_gf_mul_zero(a);
        }
    }
}

/// Multiplying powers of one element adds the exponents.
pub proof fn lemma_gf_pow_adds(a: u128, e: nat, f: nat)
    ensures
        gf_mul(gf_pow(a, e), gf_pow(a, f)) == gf_pow(a, e + f),
    decreases f,
{
    if f == 0 {
        lemma_gf_mul_one_right(gf_pow(a, e));
    } else {
        lemma_gf_pow_adds(a, e, (f - 1) as nat);
        lemma_gf_mul_associative(gf_pow(a, e), gf_pow(a, (f - 1) as nat), a);
        assert(gf_pow(a, e + f) == gf_mul(gf_pow(a, (e + f - 1) as nat), a));
        assert((e + f - 1) as nat == e + (f - 1) as nat);
    }
}

/// Raising a power to a power multiplies the exponents.
pub proof fn lemma_gf_pow_multiplies(a: u128, e: nat, f: nat)
    ensures
        gf_pow(gf_pow(a, e), f) == gf_pow(a, e * f),
    decreases f,
{
    if f == 0 {
        assert(e * 0 == 0) by (nonlinear_arith);
    } else {
        lemma_gf_pow_multiplies(a, e, (f - 1) as nat);
        lemma_gf_pow_adds(a, e * (f - 1) as nat, e);
        assert(e * (f - 1) as nat + e == e * f) by (nonlinear_arith)
            requires
                f >= 1,
        ;
    }
}

/// The 128-bit value of a (hi, lo) pair of halves.
pub open spec fn halves(hi: u64, lo: u64) -> u128 {
    ((hi as u128) << 64u32) | (lo as u128)
}

/// The bit-level facts behind one step of the shift-and-add multiplication.
proof fn lemma_mul_step_bits(a_hi: u64, a_lo: u64, b_hi: u64, b_lo: u64, p_hi: u64, p_lo: u64)
    by (bit_vector)
    ensures
        ((b_lo & 1) != 0) == (halves(b_hi, b_lo) % 2 == 1),
        halves(p_hi ^ a_hi, p_lo ^ a_lo) == halves(p_hi, p_lo) ^ halves(a_hi, a_lo),
        halves(
            (a_hi << 1u64) | (a_lo >> 63u64),
            if a_hi & 0x8000_0000_0000_0000u64 != 0 {
                (a_lo << 1u64) ^ 0x87u64
            } else {
                a_lo << 1u64
            },
        ) == xtime(halves(a_hi, a_lo)),
        halves(b_hi >> 1u64, (b_lo >> 1u64) | ((b_hi & 1) << 63u64)) == halves(b_hi, b_lo) / 2,
{
}

/// Field multiplication, bit-serial (128 shift-and-add steps).
pub fn mul_portable(a: Lane, b: Lane) -> (r: Lane)
    ensures
        lane_val(r) == gf_mul(lane_val(a), lane_val(b)),
{
    let mut p_hi = 0u64;
    let mut p_lo = 0u64;
    let mut a_hi = a.hi;
    let mut a_lo = a.lo;
    let mut b_hi = b.hi;
    let mut b_lo = b.lo;
    let ghost target = gf_mul(lane_val(a), lane_val(b));
    proof {
        lemma_mask_bits(0, 0, 0, 0, 0);
        lemma_xor128(target, 0, 0, 0);
        assert(halves(b_hi, b_lo) < 0x1_0000_0000_0000_0000_0000_0000_0000_0000int);
        lemma2_to64();
        assert(halves(b_hi, b_lo) as int * pow2(0) == halves(b_hi, b_lo) as int);
    }
    let mut i: u32 = 0;
    while i < 128
        invariant
            i <= 128,
            halves(p_hi, p_lo) ^ gf_mul(halves(a_hi, a_lo), halves(b_hi, b_lo)) == target,
            halves(b_hi, b_lo) as int * pow2(i as nat) < 0x1_0000_0000_0000_0000_0000_0000_0000_0000int,
        decreases 128 - i,
    {
        let ghost x = halves(p_hi, p_lo);
        let ghost av = halves(a_hi, a_lo);
        let ghost bv = halves(b_hi, b_lo);
        proof {
            lemma_mul_step_bits(a_hi, a_lo, b_hi, b_lo, p_hi, p_lo);
        }
        if b_lo & 1 != 0 {
            p_hi ^= a_hi;
            p_lo ^= a_lo;
        }
        let hi_bit = a_hi & 0x8000_0000_0000_0000u64;
        a_hi = (a_hi << 1u64) | (a_lo >> 63u64);
        a_lo = a_lo << 1u64;
        if hi_bit != 0 {
            a_lo ^= 0x87u64;
        }
        b_lo = (b_lo >> 1u64) | ((b_hi & 1) << 63u64);
        b_hi = b_hi >> 1u64;
        proof {
            let rest = gf_mul(xtime(av), bv / 2);
            if bv == 0 {
                lemma_gf_mul_zero(av);
                lemma_gf_mul_zero(xtime(av));
                assert(bv / 2 == 0);
            } else {
                lemma_xor128(x, av, rest, 0);
            }
            lemma_pow2_unfold((i + 1) as nat);
            assert((bv / 2) as int * pow2((i + 1) as nat) <= bv as int * pow2(i as nat))
                by (nonlinear_arith)
                requires
                    pow2((i + 1) as nat) == 2 * pow2(i as nat),
            ;
        }
        i = i + 1;
    }
    proof {
        lemma_pow2_adds(64, 64);
        lemma2_to64();
        lemma2_to64_rest();
        assert(pow2(128) == 0x1_0000_0000_0000_0000_0000_0000_0000_0000int);
        assert(halves(b_hi, b_lo) == 0) by (nonlinear_arith)
            requires
                halves(b_hi, b_lo) as int * pow2(128) < 0x1_0000_0000_0000_0000_0000_0000_0000_0000int,
                pow2(128) == 0x1_0000_0000_0000_0000_0000_0000_0000_0000int,
        ;
        lemma_gf_mul_zero(halves(a_hi, a_lo));
        let x = halves(p_hi, p_lo);
        lemma_xor128(x, 0, 0, 0);
    }
    Lane::new(p_hi, p_lo)
}

/// Field multiplication.
pub fn mul(a: Lane, b: Lane) -> (r: Lane)
    ensures
        lane_val(r) == gf_mul(lane_val(a), lane_val(b)),
{
    mul_portable(a, b)
}

/// Field squaring.
pub fn sq(a: Lane) -> (r: Lane)
    ensures
        lane_val(r) == gf_mul(lane_val(a), lane_val(a)),
{
    mul_portable(a, a)
}

/// Field addition (XOR of coefficients).
pub fn add(a: Lane, b: Lane) -> (r: Lane)
    ensures
        r.hi == a.hi ^ b.hi,
        r.lo == a.lo ^ b.lo,
        lane_val(r) == lane_val(a) ^ lane_val(b),
{
    proof {
        lemma_mul_step_bits(b.hi, b.lo, 0, 0, a.hi, a.lo);
    }
    Lane::new(a.hi ^ b.hi, a.lo ^ b.lo)
}

/// `a^1 == a` and `a^0 == 1`.
pub proof fn lemma_gf_pow_small(a: u128)
    ensures
        gf_pow(a, 0) == 1,
        gf_pow(a, 1) == a,
        gf_pow(a, 2) == gf_mul(a, a),
{
    lemma_gf_mul_one_left(a);
    assert(gf_pow(a, 1) == gf_mul(gf_pow(a, 0), a));
    assert(gf_pow(a, 2) == gf_mul(gf_pow(a, 1), a));
}

/// Every power of one is one.
pub proof fn lemma_gf_pow_one(e: nat)
    ensures
        gf_pow(1, e) == 1,
    decreases e,
{
    if e > 0 {
        lemma_gf_pow_one((e - 1) as nat);
        lemma_gf_mul_one_left(1);
    }
}

/// Any positive power of zero is zero.
pub proof fn lemma_gf_pow_zero(e: nat)
    requires
        e > 0,
    ensures
        gf_pow(0, e) == 0,
{
    lemma_gf_mul_zero(gf_pow(0, (e - 1) as nat));
}

/// Squares `x` repeatedly, `n` times, giving `x^(2^n)`.
fn sq_times(x: Lane, n: u32) -> (r: Lane)
    ensures
        lane_val(r) == gf_pow(lane_val(x), pow2(n as nat)),
{
    let mut t = x;
    let mut i: u32 = 0;
    proof {
        lemma2_to64();
        lemma_gf_pow_small(lane_val(x));
    }
    while i < n
        invariant
            i <= n,
            lane_val(t) == gf_pow(lane_val(x), pow2(i as nat)),
        decreases n - i,
    {
        let ghost e = pow2(i as nat);
        t = sq(t);
        proof {
            lemma_gf_pow_adds(lane_val(x), e, e);
            lemma_pow2_unfold((i + 1) as nat);
        }
        i = i + 1;
    }
    t
}

/// Raises `x = a^e` to `2^n`, then multiplies by `y = a^f`: the result is `a^(e * 2^n + f)`.
proof fn lemma_chain_step(a: u128, e: nat, n: nat, f: nat, x: u128, s: u128, y: u128)
    requires
        x == gf_pow(a, e),
        s == gf_pow(x, pow2(n)),
        y == gf_pow(a, f),
    ensures
        gf_mul(s, y) == gf_pow(a, e * pow2(n) + f),
{
    lemma_gf_pow_multiplies(a, e, pow2(n));
    lemma_gf_pow_adds(a, e * pow2(n), f);
}

/// Field inversion by Fermat's exponent: `a^(2^128 - 2)`, evaluated with an
/// Itoh-Tsujii addition chain. Zero maps to zero.
pub fn inv(a: Lane) -> (r: Lane)
    ensures
        lane_val(r) == gf_pow(lane_val(a), 0xffff_ffff_ffff_ffff_ffff_ffff_ffff_fffe),
        lane_val(a) == 0 ==> lane_val(r) == 0,
{
    if a.hi == 0 && a.lo == 0 {
        proof {
            lemma_mask_bits(0, 0, 0, 0, 0);
            assert(lane_val(a) == halves(0, 0));
            lemma_gf_pow_zero(0xffff_ffff_ffff_ffff_ffff_ffff_ffff_fffe);
            assert(lane_val(Lane { hi: 0, lo: 0 }) == halves(0, 0));
        }
        return Lane::new(0, 0);
    }
    let ghost av = lane_val(a);
    proof {
        lemma2_to64();
        lemma_gf_pow_small(av);
    }
    let a2 = sq(a);
    let t_2 = self::mul(a2, a);
    assert(lane_val(t_2) == gf_pow(av, 3));

    let mut t_4 = sq_times(t_2, 2);
    let ghost s = t_4;
    t_4 = self::mul(t_4, t_2);
    proof { lemma_chain_step(av, 3, 2, 3, lane_val(t_2), lane_val(s), lane_val(t_2)); }
    let ghost e4: nat = 3 * 4 + 3;

    let mut t_8 = sq_times(t_4, 4);
    let ghost s = t_8;
    t_8 = self::mul(t_8, t_4);
    proof { lemma_chain_step(av, e4, 4, e4, lane_val(t_4), lane_val(s), lane_val(t_4)); }
    let ghost e8: nat = e4 * 16 + e4;

    let mut t_16 = sq_times(t_8, 8);
    let ghost s = t_16;
    t_16 = self::mul(t_16, t_8);
    proof { lemma_chain_step(av, e8, 8, e8, lane_val(t_8), lane_val(s), lane_val(t_8)); }
    let ghost e16: nat = e8 * 256 + e8;

    let mut t_32 = sq_times(t_16, 16);
    let ghost s = t_32;
    t_32 = self::mul(t_32, t_16);
    proof { lemma_chain_step(av, e16, 16, e16, lane_val(t_16), lane_val(s), lane_val(t_16)); }
    let ghost e32: nat = e16 * 0x10000 + e16;

    let mut t_64 = sq_times(t_32, 32);
    let ghost s = t_64;
    t_64 = self::mul(t_64, t_32);
    proof { lemma_chain_step(av, e32, 32, e32, lane_val(t_32), lane_val(s), lane_val(t_32)); }
    let ghost e64: nat = e32 * 0x1_0000_0000 + e32;

    let mut inv_base = sq_times(t_64, 32);
    let ghost s = inv_base;
    inv_base = self::mul(inv_base, t_32);
    proof { lemma_chain_step(av, e64, 32, e32, lane_val(t_64), lane_val(s), lane_val(t_32)); }
    let ghost e96: nat = e64 * 0x1_0000_0000 + e32;

    let ghost b96 = inv_base;
    inv_base = sq_times(inv_base, 16);
    let ghost s = inv_base;
    inv_base = self::mul(inv_base, t_16);
    proof { lemma_chain_step(av, e96, 16, e16, lane_val(b96), lane_val(s), lane_val(t_16)); }
    let ghost e112: nat = e96 * 0x10000 + e16;

    let ghost b112 = inv_base;
    inv_base = sq_times(inv_base, 8);
    let ghost s = inv_base;
    inv_base = self::mul(inv_base, t_8);
    proof { lemma_chain_step(av, e112, 8, e8, lane_val(b112), lane_val(s), lane_val(t_8)); }
    let ghost e120: nat = e112 * 256 + e8;

    let ghost b120 = inv_base;
    inv_base = sq_times(inv_base, 4);
    let ghost s = inv_base;
    inv_base = self::mul(inv_base, t_4);
    proof { lemma_chain_step(av, e120, 4, e4, lane_val(b120), lane_val(s), lane_val(t_4)); }
    let ghost e124: nat = e120 * 16 + e4;

    let ghost b124 = inv_base;
    inv_base = sq_times(inv_base, 2);
    let ghost s = inv_base;
    inv_base = self::mul(inv_base, t_2);
    proof { lemma_chain_step(av, e124, 2, 3, lane_val(b124), lane_val(s), lane_val(t_2)); }
    let ghost e126: nat = e124 * 4 + 3;

    let ghost b126 = inv_base;
    inv_base = sq(inv_base);
    proof { lemma_gf_pow_adds(av, e126, e126); }
    let ghost b127 = inv_base;
    inv_base = self::mul(inv_base, a);
    proof { lemma_gf_pow_adds(av, e126 + e126, 1); }
    let ghost b128 = inv_base;
    let r = sq(inv_base);
    proof {
        lemma_gf_pow_adds(av, e126 + e126 + 1, e126 + e126 + 1);
        assert((e126 + e126 + 1) + (e126 + e126 + 1) == 0xffff_ffff_ffff_ffff_ffff_ffff_ffff_fffe);
    }
    r
}

/// An element with zero replaced by one, so that it can enter a product.
pub open spec fn nonzero_or_one(v: u128) -> u128 {
    if v == 0 {
        1
    } else {
        v
    }
}

/// The product of the first `n` elements of `s`, each with zero replaced by one.
pub open spec fn prefix_prod(s: Seq<u128>, n: nat) -> u128
    decreases n,
{
    if n == 0 {
        1
    } else {
        gf_mul(prefix_prod(s, (n - 1) as nat), nonzero_or_one(s[n - 1]))
    }
}

/// The inverse of the product of all 128 elements, multiplied in turn by the
/// elements after position `k` (from the last one down to `k + 1`).
pub open spec fn trailing_inv(s: Seq<u128>, k: nat) -> u128
    decreases 127 - k,
{
    if k >= 127 {
        gf_pow(prefix_prod(s, 128), 0xffff_ffff_ffff_ffff_ffff_ffff_ffff_fffe)
    } else {
        gf_mul(trailing_inv(s, k + 1), nonzero_or_one(s[k + 1 as int]))
    }
}

/// Element `i` of Montgomery's batch inversion: zero stays zero; otherwise the
/// inverse of the whole product times every other element.
pub open spec fn batch_inv_elem(s: Seq<u128>, i: nat) -> u128 {
    if s[i as int] == 0 {
        0
    } else if i == 0 {
        trailing_inv(s, 0)
    } else {
        gf_mul(trailing_inv(s, i), prefix_prod(s, i))
    }
}

/// The product of the elements of `s` from position `k` to the end (up to
/// position 127), each with zero replaced by one.
pub open spec fn suffix_prod(s: Seq<u128>, k: nat) -> u128
    decreases 128 - k,
{
    if k >= 128 {
        1
    } else {
        gf_mul(nonzero_or_one(s[k as int]), suffix_prod(s, k + 1))
    }
}

proof fn lemma_trailing_inv_closed(s: Seq<u128>, k: nat)
    requires
        k <= 127,
    ensures
        trailing_inv(s, k) == gf_mul(gf_pow(prefix_prod(s, 128), 0xffff_ffff_ffff_ffff_ffff_ffff_ffff_fffe), suffix_prod(s, k + 1)),
    decreases 127 - k,
{
    let t = gf_pow(prefix_prod(s, 128), 0xffff_ffff_ffff_ffff_ffff_ffff_ffff_fffe);
    if k == 127 {
        lemma_gf_mul_one_right(t);
    } else {
        lemma_trailing_inv_closed(s, k + 1);
        let a = nonzero_or_one(s[k + 1 as int]);
        let rest = suffix_prod(s, k + 2);
        lemma_gf_mul_associative(t, rest, a);
        lemma_gf_mul_commutative(rest, a);
    }
}

/// Montgomery's trick in closed form: each nonzero element comes out as the
/// inverse of the product of all the elements (zeros counted as ones) times
/// the product of all the other elements.
pub proof fn lemma_batch_inv_elem_closed(s: Seq<u128>, i: nat)
    requires
        i < 128,
    ensures
        batch_inv_elem(s, i) == if s[i as int] == 0 {
            0
        } else {
            gf_mul(
                gf_pow(prefix_prod(s, 128), 0xffff_ffff_ffff_ffff_ffff_ffff_ffff_fffe),
                gf_mul(prefix_prod(s, i), suffix_prod(s, i + 1)),
            )
        },
{
    let t = gf_pow(prefix_prod(s, 128), 0xffff_ffff_ffff_ffff_ffff_ffff_ffff_fffe);
    lemma_trailing_inv_closed(s, i);
    if s[i as int] != 0 {
        if i == 0 {
            lemma_gf_mul_one_left(suffix_prod(s, 1));
        } else {
            lemma_gf_mul_associative(t, suffix_prod(s, i + 1), prefix_prod(s, i));
            lemma_gf_mul_commutative(suffix_prod(s, i + 1), prefix_prod(s, i));
        }
    }
}

/// The values of a sequence of lanes.
pub open spec fn lane_vals(s: Seq<Lane>) -> Seq<u128> {
    s.map_values(|l: Lane| lane_val(l))
}

/// All ones when the lane is zero, else zero.
fn zero_mask(l: Lane) -> (m: u64)
    ensures
        m == if lane_val(l) == 0 { 0xffff_ffff_ffff_ffffu64 } else { 0u64 },
{
    let h = l.hi;
    let o = l.lo;
    proof {
        lemma_mask_bits(h, o, 0, 0, 0);
    }
    0u64.wrapping_sub(((h | o) == 0) as u64)
}

/// Testing a lane for zero, substituting one for zero under the zero mask,
/// and clearing under it.
proof fn lemma_mask_bits(h: u64, o: u64, m: u64, a_hi: u64, a_lo: u64)
    by (bit_vector)
    ensures
        ((h | o) == 0) == (halves(h, o) == 0),
        halves(0, 0) == 0,
        halves(0, 1) == 1,
        m == (if halves(h, o) == 0 { 0xffff_ffff_ffff_ffffu64 } else { 0u64 }) ==> halves(h, o ^ (m & 1))
            == nonzero_or_one(halves(h, o)),
        m == (if halves(h, o) == 0 { 0xffff_ffff_ffff_ffffu64 } else { 0u64 }) ==> halves(a_hi & !m, a_lo & !m)
            == (if halves(h, o) == 0 { 0 } else { halves(a_hi, a_lo) }),
{
}

/// The lanes holding zero and one.
pub proof fn lemma_lane_consts()
    ensures
        lane_val(Lane { hi: 0, lo: 0 }) == 0,
        lane_val(Lane { hi: 0, lo: 1 }) == 1,
{
    lemma_mask_bits(0, 0, 0, 0, 0);
}

/// Montgomery batch inversion of 128 elements in place: one field inversion and
/// three multiplications per element; zero lanes stay zero.
pub fn batch_inv(lanes: &mut [Lane; 128])
    ensures
        forall|i: int|
            0 <= i < 128 ==> lane_val(#[trigger] final(lanes)@[i]) == batch_inv_elem(
                lane_vals(old(lanes)@),
                i as nat,
            ),
{
    let ghost s = lane_vals(lanes@);
    let ghost orig = lanes@;
    let mut masks = [0u64; 128];
    let mut c = [Lane::new(0, 0); 128];
    let mut acc = Lane::new(0, 1);
    proof {
        lemma_mask_bits(0, 0, 0, 0, 0);
    }
    let mut i: usize = 0;
    while i < 128
        invariant
            i <= 128,
            lanes@ == orig,
            s == lane_vals(orig),
            orig.len() == 128,
            masks@.len() == 128,
            c@.len() == 128,
            lane_val(acc) == prefix_prod(s, i as nat),
            forall|k: int|
                0 <= k < i ==> #[trigger] masks@[k] == if s[k] == 0 { 0xffff_ffff_ffff_ffffu64 } else { 0u64 },
            forall|k: int| 0 <= k < i ==> lane_val(#[trigger] c@[k]) == prefix_prod(s, (k + 1) as nat),
        decreases 128 - i,
    {
        let l = lanes[i];
        let mask = zero_mask(l);
        masks[i] = mask;
        let a_prime = Lane::new(l.hi, l.lo ^ (mask & 1));
        proof {
            lemma_mask_bits(l.hi, l.lo, mask, 0, 0);
            assert(s[i as int] == lane_val(l));
        }
        acc = self::mul(acc, a_prime);
        c[i] = acc;
        i = i + 1;
    }

    let mut inv_prod = inv(acc);
    let mut i: usize = 127;
    while i > 0
        invariant
            1 <= i + 1 <= 128,
            s == lane_vals(orig),
            orig.len() == 128,
            masks@.len() == 128,
            c@.len() == 128,
            forall|k: int|
                0 <= k < 128 ==> #[trigger] masks@[k] == if s[k] == 0 { 0xffff_ffff_ffff_ffffu64 } else { 0u64 },
            forall|k: int| 0 <= k < 128 ==> lane_val(#[trigger] c@[k]) == prefix_prod(s, (k + 1) as nat),
            lane_val(inv_prod) == trailing_inv(s, i as nat),
            forall|k: int| 0 <= k <= i ==> #[trigger] lanes@[k] == orig[k],
            forall|k: int| i < k < 128 ==> lane_val(#[trigger] lanes@[k]) == batch_inv_elem(s, k as nat),
        decreases i,
    {
        let l = lanes[i];
        let mask = masks[i];
        let a_prime = Lane::new(l.hi, l.lo ^ (mask & 1));
        let a_inv = self::mul(inv_prod, c[i - 1]);
        inv_prod = self::mul(inv_prod, a_prime);
        proof {
            assert(s[i as int] == lane_val(l));
            lemma_mask_bits(l.hi, l.lo, mask, a_inv.hi, a_inv.lo);
        }
        lanes[i] = Lane::new(a_inv.hi & !mask, a_inv.lo & !mask);
        i = i - 1;
    }

    let l = lanes[0];
    let mask = masks[0];
    proof {
        assert(s[0] == lane_val(l));
        lemma_mask_bits(l.hi, l.lo, mask, inv_prod.hi, inv_prod.lo);
    }
    lanes[0] = Lane::new(inv_prod.hi & !mask, inv_prod.lo & !mask);
}

} // verus!
