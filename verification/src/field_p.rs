//! Arithmetic in the prime field GF(p), p = 2^127 - 1 (a Mersenne prime).
//!
//! Elements are held in a `u128`; a canonical element lies in `[0, p)`.
use vstd::arithmetic::div_mod::*;
use vstd::arithmetic::mul::*;
use vstd::arithmetic::power::*;
use vstd::arithmetic::power2::*;
use vstd::prelude::*;

verus! {

/// The Mersenne prime 2^127 - 1.
pub const P: u128 = 0x7fff_ffff_ffff_ffff_ffff_ffff_ffff_ffffu128;

/// The exponent `d` of the inverse power map: 5 * d = 1 (mod p - 1).
pub const D: u128 = 0x6666_6666_6666_6666_6666_6666_6666_6665u128;

/// The modulus as a mathematical integer.
pub open spec fn modulus() -> int {
    P as int
}

/// `a^e mod p`, with `a` read as an integer.
pub open spec fn fp_pow(a: int, e: nat) -> int {
    pow(a, e) % modulus()
}

proof fn lemma_modulus_facts()
    ensures
        modulus() > 0,
        modulus() == 0x7fff_ffff_ffff_ffff_ffff_ffff_ffff_ffff,
        0x8000_0000_0000_0000_0000_0000_0000_0000int == modulus() + 1,
{
}

/// Multiplying two powers of the same base adds the exponents, modulo p.
proof fn lemma_mul_pows(a: int, e: nat, f: nat, x: int, y: int)
    requires
        x == fp_pow(a, e),
        y == fp_pow(a, f),
    ensures
        (x * y) % modulus() == fp_pow(a, e + f),
{
    lemma_modulus_facts();
    lemma_mul_mod_noop(pow(a, e), pow(a, f), modulus());
    lemma_pow_adds(a, e, f);
}

/// Raising a power to a power multiplies the exponents, modulo p.
proof fn lemma_pow_of_pow(a: int, e: nat, f: nat, x: int)
    requires
        x == fp_pow(a, e),
    ensures
        fp_pow(x, f) == fp_pow(a, e * f),
{
    lemma_modulus_facts();
    lemma_pow_mod_noop(pow(a, e), f, modulus());
    lemma_pow_multiplies(a, e, f);
}

/// Splitting a value at bit 127.
proof fn lemma_split127(v: u128)
    by (bit_vector)
    ensures
        v >> 127u32 <= 1,
        v & 0x7fff_ffff_ffff_ffff_ffff_ffff_ffff_ffffu128 <= 0x7fff_ffff_ffff_ffff_ffff_ffff_ffff_ffffu128,
        v == (v >> 127u32) * 0x8000_0000_0000_0000_0000_0000_0000_0000u128 + (v
            & 0x7fff_ffff_ffff_ffff_ffff_ffff_ffff_ffffu128),
{
}

/// Splitting a value into 64-bit halves.
proof fn lemma_split64(a: u128)
    by (bit_vector)
    ensures
        (a & 0xFFFF_FFFF_FFFF_FFFFu128) as u64 as u128 == a & 0xFFFF_FFFF_FFFF_FFFFu128,
        (a >> 64u32) as u64 as u128 == a >> 64u32,
        a == (a >> 64u32) * 0x1_0000_0000_0000_0000u128 + (a & 0xFFFF_FFFF_FFFF_FFFFu128),
        a & 0xFFFF_FFFF_FFFF_FFFFu128 < 0x1_0000_0000_0000_0000u128,
        (a & 0xFFFF_FFFF_FFFF_FFFFu128) << 64u32 == (a & 0xFFFF_FFFF_FFFF_FFFFu128) * 0x1_0000_0000_0000_0000u128,
        a >> 64u32 < 0x1_0000_0000_0000_0000u128,
        a <= 0x7fff_ffff_ffff_ffff_ffff_ffff_ffff_ffffu128 ==> a >> 64u32 < 0x8000_0000_0000_0000u128,
{
}

/// Carries, masks, doubling and halving on 128-bit values.
proof fn lemma_bits128(x: u128, y: u128, f: u128, h: u128)
    by (bit_vector)
    ensures
        x.wrapping_add(y) as int == x + y - (if x.wrapping_add(y) < x {
            0x1_0000_0000_0000_0000_0000_0000_0000_0000int
        } else {
            0
        }),
        x <= 0xffff_ffff_ffff_ffff_ffff_ffff_ffff_fffdu128 && y <= 1 ==> x.wrapping_add(y) == x + y
            && !(x.wrapping_add(y) < x),
        (f == 0 || f == 1) ==> 0x7fff_ffff_ffff_ffff_ffff_ffff_ffff_ffffu128 & (0u128.wrapping_sub(f)) == (
        if f == 1 {
            0x7fff_ffff_ffff_ffff_ffff_ffff_ffff_ffffu128
        } else {
            0
        }),
        h < 0x4000_0000_0000_0000_0000_0000_0000_0000u128 ==> h << 1u32 == h * 2,
        (h & 1 == 1) == (h % 2 == 1),
        h >> 1u32 == h / 2,
{
}

/// The exponent of the inverse power map inverts 5 modulo p - 1:
/// `5 * d == 1 (mod p - 1)`.
pub proof fn lemma_d_inverts_five()
    ensures
        (5 * D as int) % (modulus() - 1) == 1,
{
    assert(5 * 0x6666_6666_6666_6666_6666_6666_6666_6665int == 4 * (0x7fff_ffff_ffff_ffff_ffff_ffff_ffff_ffffint
        - 1) + 1);
    vstd::arithmetic::div_mod::lemma_mod_multiples_vanish(
        4,
        1,
        0x7fff_ffff_ffff_ffff_ffff_ffff_ffff_fffeint,
    );
    vstd::arithmetic::div_mod::lemma_small_mod(1, 0x7fff_ffff_ffff_ffff_ffff_ffff_ffff_fffe);
}

/// Reduces any 128-bit value modulo p.
///
/// The result is computed without a data-dependent branch.
pub fn reduce(v: u128) -> (r: u128)
    ensures
        r as int == v as int % modulus(),
        r < P,
{
    let v_top = v >> 127u32;
    let v_low = v & P;
    proof {
        lemma_split127(v);
    }
    let mut r = v_low + v_top;
    let mask = 0u128.wrapping_sub((r >= P) as u128);
    proof {
        let f: u128 = if r >= P { 1u128 } else { 0u128 };
        lemma_bits128(0, 0, f, 0);
    }
    r -= P & mask;
    proof {
        lemma_modulus_facts();
        let m = modulus();
        if v_top == 1 {
            assert(v as int == m * 1 + (v_low + 1));
            lemma_mod_multiples_vanish(1, v_low + 1, m);
        } else {
            assert(v as int == v_low as int);
        }
        if (v_low + v_top) as int >= m {
            lemma_mod_multiples_vanish(1, (v_low + v_top) as int - m, m);
            lemma_small_mod(((v_low + v_top) as int - m) as nat, m as nat);
        } else {
            lemma_small_mod((v_low + v_top) as nat, m as nat);
        }
    }
    r
}

/// Field addition. The sum must not overflow 128 bits.
pub fn add(a: u128, b: u128) -> (r: u128)
    requires
        a as int + b as int <= u128::MAX,
    ensures
        r as int == (if a as int + b as int >= modulus() { a as int + b as int - modulus() } else {
            a as int + b as int
        }),
        a < P && b < P ==> r < P && r as int == (a as int + b as int) % modulus(),
{
    let mut r = a + b;
    let mask = 0u128.wrapping_sub((r >= P) as u128);
    proof {
        let f: u128 = if r >= P { 1u128 } else { 0u128 };
        lemma_bits128(0, 0, f, 0);
    }
    r -= P & mask;
    proof {
        lemma_modulus_facts();
        if a < P && b < P {
            let s = a as int + b as int;
            if s >= modulus() {
                lemma_mod_multiples_vanish(1, s - modulus(), modulus());
                lemma_small_mod((s - modulus()) as nat, modulus() as nat);
            } else {
                lemma_small_mod(s as nat, modulus() as nat);
            }
        }
    }
    r
}

/// Field subtraction, computed with wrapping arithmetic and a branch-free correction.
pub fn sub(a: u128, b: u128) -> (r: u128)
    ensures
        r == (if a.wrapping_sub(b) > P { a.wrapping_sub(b).wrapping_add(P) } else {
            a.wrapping_sub(b)
        }),
        a < P && b < P ==> r < P && r as int == (a as int - b as int) % modulus(),
{
    let mut r = a.wrapping_sub(b);
    let mask = 0u128.wrapping_sub((r > P) as u128);
    proof {
        let f: u128 = if r > P { 1u128 } else { 0u128 };
        lemma_bits128(0, 0, f, 0);
        lemma_bits128(r, 0, 0, 0);
    }
    r = r.wrapping_add(P & mask);
    proof {
        lemma_modulus_facts();
        if a < P && b < P {
            let m = modulus();
            if a >= b {
                lemma_small_mod((a - b) as nat, m as nat);
            } else {
                assert(a as int - b as int + m == (a as int - b as int) + m * 1);
                lemma_mod_multiples_vanish(1, a as int - b as int, m);
                lemma_small_mod((a as int - b as int + m) as nat, m as nat);
            }
        }
    }
    r
}

/// Bounds the product of two values below the given powers of two.
proof fn lemma_mul_bound(x: int, y: int, bx: int, by_: int)
    by (nonlinear_arith)
    requires
        0 <= x < bx,
        0 <= y < by_,
    ensures
        0 <= x * y < bx * by_,
        0 <= x * y,
{
}

/// Field multiplication on a portable 64-bit-limb schoolbook product
/// followed by Mersenne folding.
///
/// Both operands must be below 2^127 (every value in `[0, p]` qualifies).
pub fn mul_portable(a: u128, b: u128) -> (r: u128)
    requires
        a <= P,
        b <= P,
    ensures
        r as int == (a as int * b as int) % modulus(),
        r < P,
{
    let a_lo = (a & 0xFFFF_FFFF_FFFF_FFFFu128) as u64 as u128;
    let a_hi = (a >> 64u32) as u64 as u128;
    let b_lo = (b & 0xFFFF_FFFF_FFFF_FFFFu128) as u64 as u128;
    let b_hi = (b >> 64u32) as u64 as u128;
    proof {
        lemma_split64(a);
        lemma_split64(b);
        lemma_mul_bound(a_lo as int, b_lo as int, 0x1_0000_0000_0000_0000, 0x1_0000_0000_0000_0000);
        lemma_mul_bound(a_lo as int, b_hi as int, 0x1_0000_0000_0000_0000, 0x8000_0000_0000_0000);
        lemma_mul_bound(a_hi as int, b_lo as int, 0x8000_0000_0000_0000, 0x1_0000_0000_0000_0000);
        lemma_mul_bound(a_hi as int, b_hi as int, 0x8000_0000_0000_0000, 0x8000_0000_0000_0000);
    }
    let p0 = a_lo * b_lo;
    let p1 = a_lo * b_hi;
    let p2 = a_hi * b_lo;
    let p3 = a_hi * b_hi;

    let cross = p1 + p2;
    let cross_lo = (cross & 0xFFFF_FFFF_FFFF_FFFFu128) as u64 as u128;
    let cross_hi = cross >> 64u32;
    proof {
        lemma_split64(cross);
    }
    let shifted = cross_lo << 64u32;
    let lo = p0.wrapping_add(shifted);
    let carry1 = lo < p0;
    proof {
        lemma_bits128(p0, shifted, 0, 0);
        // The full 256-bit product is hi * 2^128 + lo.
        assert(a as int * b as int == (p3 + cross_hi + (if carry1 { 1int } else { 0int }))
            * 0x1_0000_0000_0000_0000_0000_0000_0000_0000int + lo) by (nonlinear_arith)
            requires
                a as int == a_hi * 0x1_0000_0000_0000_0000int + a_lo,
                b as int == b_hi * 0x1_0000_0000_0000_0000int + b_lo,
                p0 == a_lo * b_lo,
                p1 == a_lo * b_hi,
                p2 == a_hi * b_lo,
                p3 == a_hi * b_hi,
                cross == p1 + p2,
                cross as int == cross_hi * 0x1_0000_0000_0000_0000int + cross_lo,
                shifted as int == cross_lo * 0x1_0000_0000_0000_0000int,
                lo as int == p0 as int + shifted as int - (if carry1 {
                    0x1_0000_0000_0000_0000_0000_0000_0000_0000int
                } else {
                    0
                }),
        ;
        lemma_mul_bound(a as int, b as int, 0x8000_0000_0000_0000_0000_0000_0000_0000, 0x8000_0000_0000_0000_0000_0000_0000_0000);
    }
    let hi = p3 + cross_hi + (carry1 as u128);
    proof {
        assert(hi < 0x4000_0000_0000_0000_0000_0000_0000_0000u128) by (nonlinear_arith)
            requires
                a as int * b as int == hi * 0x1_0000_0000_0000_0000_0000_0000_0000_0000int + lo,
                (a as int * b as int) < 0x8000_0000_0000_0000_0000_0000_0000_0000int
                    * 0x8000_0000_0000_0000_0000_0000_0000_0000int,
                lo >= 0,
        ;
    }

    let lo_top = lo >> 127u32;
    let lo_low = lo & P;
    proof {
        lemma_split127(lo);
        lemma_bits128(0, 0, 0, hi);
    }

    let sum_a = (hi << 1u32) + lo_low;
    assert(sum_a as int == 2 * hi + lo_low);
    let sum1 = sum_a.wrapping_add(lo_top);
    let carry2 = sum1 < sum_a;
    proof {
        lemma_bits128(sum_a, lo_top, 0, 0);
    }

    let r0 = reduce(sum1);
    let r = reduce(r0 + (carry2 as u128) * 2);
    proof {
        lemma_modulus_facts();
        let m = modulus();
        // a*b = sum1 + p * (2 * hi + lo_top)
        assert(a as int * b as int == sum1 as int + m * (2 * hi + lo_top)) by (nonlinear_arith)
            requires
                a as int * b as int == hi * 0x1_0000_0000_0000_0000_0000_0000_0000_0000int + lo,
                lo as int == lo_top * 0x8000_0000_0000_0000_0000_0000_0000_0000int + lo_low,
                sum1 as int == 2 * hi + lo_low + lo_top,
                m == 0x7fff_ffff_ffff_ffff_ffff_ffff_ffff_ffff,
        ;
        lemma_mod_multiples_vanish(2 * hi + lo_top, sum1 as int, m);
        lemma_small_mod(r0 as nat, m as nat);
    }
    r
}

/// Field multiplication.
pub fn mul(a: u128, b: u128) -> (r: u128)
    requires
        a <= P,
        b <= P,
    ensures
        r as int == (a as int * b as int) % modulus(),
        r < P,
{
    mul_portable(a, b)
}

/// Field squaring.
pub fn sq(a: u128) -> (r: u128)
    requires
        a <= P,
    ensures
        r as int == (a as int * a as int) % modulus(),
        r < P,
{
    self::mul(a, a)
}

/// The forward power map `a^5 mod p`.
pub fn pow5(a: u128) -> (r: u128)
    requires
        a <= P,
    ensures
        r as int == fp_pow(a as int, 5),
        r < P,
{
    let a2 = sq(a);
    let a4 = sq(a2);
    let r = self::mul(a4, a);
    proof {
        reveal_with_fuel(pow, 6);
        lemma_modulus_facts();
        lemma_mul_mod_noop(a as int * a as int, a as int * a as int, modulus());
        lemma_mul_mod_noop_left((a as int * a as int) * (a as int * a as int), a as int, modulus());
        assert(pow(a as int, 5) == (a as int * a as int) * (a as int * a as int) * a as int)
            by (nonlinear_arith)
            requires
                pow(a as int, 5) == a as int * (a as int * (a as int * (a as int * (a as int * 1)))),
        ;
    }
    r
}

/// Squares `x` repeatedly, `n` times, giving `x^(2^n) mod p`.
fn sq_times(x: u128, n: u32) -> (r: u128)
    requires
        x < P,
    ensures
        r as int == fp_pow(x as int, pow2(n as nat)),
        r < P,
{
    let mut t = x;
    let mut i: u32 = 0;
    proof {
        lemma_modulus_facts();
        lemma_pow1(x as int);
        lemma2_to64();
        lemma_small_mod(x as nat, modulus() as nat);
    }
    while i < n
        invariant
            i <= n,
            t < P,
            t as int == fp_pow(x as int, pow2(i as nat)),
        decreases n - i,
    {
        let ghost e = pow2(i as nat);
        let ghost t0 = t;
        t = sq(t);
        proof {
            lemma_mul_pows(x as int, e, e, t0 as int, t0 as int);
            lemma_pow2_unfold((i + 1) as nat);
        }
        i = i + 1;
    }
    t
}

/// Multiplying a power of `a` by `a` itself raises the exponent by one, modulo p.
proof fn lemma_mul_base(a: int, e: nat, x: int)
    requires
        x == fp_pow(a, e),
    ensures
        (x * a) % modulus() == fp_pow(a, e + 1),
{
    lemma_modulus_facts();
    lemma_mul_mod_noop_left(pow(a, e), a, modulus());
    lemma_pow_adds(a, e, 1);
    lemma_pow1(a);
}

/// One step of right-to-left square-and-multiply keeps `res * base^exp` fixed modulo p.
proof fn lemma_square_multiply_step(res: int, base: int, exp: nat, res2: int, base2: int)
    requires
        res2 == (if exp % 2 == 1 { (res * base) % modulus() } else { res }),
        base2 == (base * base) % modulus(),
    ensures
        (res2 * pow(base2, exp / 2)) % modulus() == (res * pow(base, exp)) % modulus(),
{
    lemma_modulus_facts();
    let m = modulus();
    let k = exp / 2;
    let b = exp % 2;
    assert(exp == 2 * k + b);
    lemma_pow_adds(base, 2 * k, b);
    lemma_pow_multiplies(base, 2, k);
    reveal_with_fuel(pow, 3);
    lemma_square_is_pow2(base);
    assert(pow(base, 2) == base * base);
    let x = pow(base * base, k);
    lemma_pow_mod_noop(base * base, k, m);
    // res2 * pow(base2, k) == res2 * x  (mod m)
    lemma_mul_mod_noop_right(res2, pow(base2, k), m);
    lemma_mul_mod_noop_right(res2, x, m);
    if b == 1 {
        lemma_pow1(base);
        lemma_mul_mod_noop_left(res * base, x, m);
        assert(pow(base, exp) == x * base);
        lemma_mul_is_associative(res, base, x);
        lemma_mul_is_commutative(base, x);
        lemma_mul_is_associative(res, x, base);
    } else {
        lemma_pow0(base);
        assert(pow(base, exp) == x);
    }
}

/// The inverse power map computed by plain right-to-left square-and-multiply.
pub fn powd_binary_fallback(a: u128) -> (r: u128)
    requires
        a <= P,
    ensures
        r as int == fp_pow(a as int, D as nat),
        r < P,
{
    if a == 0 {
        proof {
            lemma0_pow(D as nat);
            lemma_modulus_facts();
        }
        return 0;
    }
    let d: u128 = 136112946768375385385349842972707284581u128;
    let mut res = 1u128;
    let mut base = a;
    let mut exp = d;
    proof {
        lemma_modulus_facts();
        assert(d == D);
    }
    while exp > 0
        invariant
            res < P,
            base <= P,
            fp_pow(a as int, D as nat) == (res * pow(base as int, exp as nat)) % modulus(),
        decreases exp,
    {
        let ghost res0 = res;
        let ghost base0 = base;
        let ghost exp0 = exp;
        if exp & 1 == 1 {
            res = self::mul(res, base);
        }
        base = sq(base);
        exp = exp >> 1u32;
        proof {
            lemma_bits128(0, 0, 0, exp0);
            lemma_square_multiply_step(res0 as int, base0 as int, exp0 as nat, res as int, base as int);
        }
    }
    proof {
        lemma_pow0(base as int);
        lemma_small_mod(res as nat, modulus() as nat);
    }
    res
}

/// The inverse power map `a^d mod p` computed with a fixed addition chain.
pub fn powd(a: u128) -> (r: u128)
    requires
        a <= P,
    ensures
        r as int == fp_pow(a as int, D as nat),
        r < P,
{
    let ghost ai = a as int;
    proof {
        lemma_modulus_facts();
        lemma2_to64();
        reveal_with_fuel(pow, 3);
        lemma_mul_mod_noop(ai, ai, modulus());
    }
    // t1 = a^6
    let a2 = sq(a);
    assert(a2 as int == fp_pow(ai, 2));
    let a4 = sq(a2);
    proof { lemma_mul_pows(ai, 2, 2, a2 as int, a2 as int); }
    let t1 = self::mul(a4, a2);
    proof { lemma_mul_pows(ai, 4, 2, a4 as int, a2 as int); }
    // a5 = a^5
    let a5 = self::mul(a4, a);
    proof { lemma_mul_base(ai, 4, a4 as int); }

    // t2 = t1^(2^4) * t1
    let mut t2 = sq_times(t1, 4);
    proof { lemma_pow_of_pow(ai, 6, 16, t1 as int); }
    let ghost s2 = t2;
    t2 = self::mul(t2, t1);
    proof { lemma_mul_pows(ai, 96, 6, s2 as int, t1 as int); }
    let ghost e2: nat = 102;

    // t4 = t2^(2^8) * t2
    let mut t4 = sq_times(t2, 8);
    proof { lemma_pow_of_pow(ai, e2, 256, t2 as int); }
    let ghost s4 = t4;
    t4 = self::mul(t4, t2);
    proof { lemma_mul_pows(ai, e2 * 256, e2, s4 as int, t2 as int); }
    let ghost e4: nat = e2 * 256 + e2;

    // t8 = t4^(2^16) * t4
    let mut t8 = sq_times(t4, 16);
    proof { lemma_pow_of_pow(ai, e4, 0x10000, t4 as int); }
    let ghost s8 = t8;
    t8 = self::mul(t8, t4);
    proof { lemma_mul_pows(ai, e4 * 0x10000, e4, s8 as int, t4 as int); }
    let ghost e8: nat = e4 * 0x10000 + e4;

    // t16 = t8^(2^32) * t8
    let mut t16 = sq_times(t8, 32);
    proof { lemma_pow_of_pow(ai, e8, 0x1_0000_0000, t8 as int); }
    let ghost s16 = t16;
    t16 = self::mul(t16, t8);
    proof { lemma_mul_pows(ai, e8 * 0x1_0000_0000, e8, s16 as int, t8 as int); }
    let ghost e16: nat = e8 * 0x1_0000_0000 + e8;

    // t24 = t16^(2^32) * t8
    let mut t24 = sq_times(t16, 32);
    proof { lemma_pow_of_pow(ai, e16, 0x1_0000_0000, t16 as int); }
    let ghost s24 = t24;
    t24 = self::mul(t24, t8);
    proof { lemma_mul_pows(ai, e16 * 0x1_0000_0000, e8, s24 as int, t8 as int); }
    let ghost e24: nat = e16 * 0x1_0000_0000 + e8;

    // t28 = t24^(2^16) * t4
    let mut t28 = sq_times(t24, 16);
    proof { lemma_pow_of_pow(ai, e24, 0x10000, t24 as int); }
    let ghost s28 = t28;
    t28 = self::mul(t28, t4);
    proof { lemma_mul_pows(ai, e24 * 0x10000, e4, s28 as int, t4 as int); }
    let ghost e28: nat = e24 * 0x10000 + e4;

    // t30 = t28^(2^8) * t2
    let mut t30 = sq_times(t28, 8);
    proof { lemma_pow_of_pow(ai, e28, 256, t28 as int); }
    let ghost s30 = t30;
    t30 = self::mul(t30, t2);
    proof { lemma_mul_pows(ai, e28 * 256, e2, s30 as int, t2 as int); }
    let ghost e30: nat = e28 * 256 + e2;

    // t31 = t30^(2^4) * t1
    let mut t31 = sq_times(t30, 4);
    proof { lemma_pow_of_pow(ai, e30, 16, t30 as int); }
    let ghost s31 = t31;
    t31 = self::mul(t31, t1);
    proof { lemma_mul_pows(ai, e30 * 16, 6, s31 as int, t1 as int); }
    let ghost e31: nat = e30 * 16 + 6;

    // d = t31^(2^4) * a^5
    let mut d_val = sq_times(t31, 4);
    proof { lemma_pow_of_pow(ai, e31, 16, t31 as int); }
    let ghost sd = d_val;
    d_val = self::mul(d_val, a5);
    proof {
        lemma_mul_pows(ai, e31 * 16, 5, sd as int, a5 as int);
        assert(e31 * 16 + 5 == D as nat);
    }
    d_val
}

} // verus!
