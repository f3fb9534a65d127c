//! Arithmetic in the binary field GF(2^8) with modulus x^8 + x^4 + x^3 + x + 1.
use vstd::arithmetic::power2::*;
use vstd::prelude::*;

verus! {

/// Multiplication by `x` modulo the field polynomial.
pub open spec fn xtime8(a: u8) -> u8 {
    if a & 0x80u8 != 0 {
        (a << 1u8) ^ 0x1Bu8
    } else {
        a << 1u8
    }
}

/// The product of two field elements: the sum, over the set bits `i` of `b`,
/// of `a * x^i`, each `a * x^i` obtained from `a` by `i` applications of `xtime8`.
pub open spec fn gf8_mul(a: u8, b: u8) -> u8
    decreases b,
{
    if b == 0 {
        0
    } else {
        let rest = gf8_mul(xtime8(a), b / 2);
        if b % 2 == 1 {
            a ^ rest
        } else {
            rest
        }
    }
}

/// XOR identities and the low bit and halving of a 8-bit value.
proof fn lemma_bits_u8(p: u8, a: u8, r: u8, b: u8)
    by (bit_vector)
    ensures
        0u8 ^ p == p,
        p ^ 0u8 == p,
        p ^ (a ^ r) == (p ^ a) ^ r,
        (b & 1 != 0) == (b % 2 == 1),
        b >> 1u8 == b / 2,
{
}

/// XOR and halving facts behind the linearity of the product.
proof fn lemma_linear_bits_u8(a: u8, x: u8, y: u8, b: u8, c: u8)
    by (bit_vector)
    ensures
        (b ^ c) / 2 == (b / 2) ^ (c / 2),
        ((b ^ c) % 2 == 1) == ((b % 2 == 1) != (c % 2 == 1)),
        (a ^ x) ^ (a ^ y) == x ^ y,
        (a ^ x) ^ y == a ^ (x ^ y),
        x ^ (a ^ y) == a ^ (x ^ y),
        x ^ x == 0,
        0u8 ^ x == x,
        0u8 ^ y == y,
        x ^ 0u8 == x,
        (b ^ c == 0) == (b == c),
        0u8 ^ c == c,
        b ^ 0u8 == b,
{
}

/// The product is additive (XOR-linear) in its right argument.
pub proof fn lemma_gf8_mul_linear_right(a: u8, b: u8, c: u8)
    ensures
        gf8_mul(a, b ^ c) == gf8_mul(a, b) ^ gf8_mul(a, c),
    decreases b + c,
{
    lemma_linear_bits_u8(a, gf8_mul(a, b), gf8_mul(a, c), b, c);
    if b == 0 {
        assert(b ^ c == c);
    } else if c == 0 {
        assert(b ^ c == b);
    } else if b ^ c == 0 {
        assert(b == c);
    } else {
        let xa = xtime8(a);
        let bc: u8 = b ^ c;
        lemma_gf8_mul_linear_right(xa, b / 2, c / 2);
        let rb = gf8_mul(xa, b / 2);
        let rc = gf8_mul(xa, c / 2);
        lemma_linear_bits_u8(a, rb, rc, b, c);
        assert(bc / 2 == (b / 2) ^ (c / 2));
        assert(gf8_mul(xa, bc / 2) == rb ^ rc);
        assert(gf8_mul(a, bc) == if bc % 2 == 1 { a ^ (rb ^ rc) } else { rb ^ rc });
        assert(gf8_mul(a, b) == if b % 2 == 1 { a ^ rb } else { rb });
        assert(gf8_mul(a, c) == if c % 2 == 1 { a ^ rc } else { rc });
    }
}

/// `n` steps of the iterative shift-and-XOR product: while the bits of `b`
/// are consumed from the bottom, `a` is added to `p` for each set bit and
/// multiplied by `x`.
pub open spec fn ref8_steps(p: u8, a: u8, b: u8, n: nat) -> u8
    decreases n,
{
    if n == 0 {
        p
    } else {
        ref8_steps(if b & 1 != 0 { p ^ a } else { p }, xtime8(a), b >> 1u8, (n - 1) as nat)
    }
}

proof fn lemma_ref8_steps(p: u8, a: u8, b: u8, n: nat)
    requires
        b < pow2(n),
    ensures
        ref8_steps(p, a, b, n) == p ^ gf8_mul(a, b),
    decreases n,
{
    lemma2_to64();
    lemma_bits_u8(p, a, gf8_mul(xtime8(a), b / 2), b);
    if n > 0 {
        lemma_pow2_unfold(n);
        let p1 = if b & 1 != 0 { p ^ a } else { p };
        lemma_ref8_steps(p1, xtime8(a), b >> 1u8, (n - 1) as nat);
        lemma_bits_u8(p1, 0, 0, 0);
        if b == 0 {
            assert(gf8_mul(xtime8(a), 0) == 0);
        }
    }
}

/// The product equals the iterative 8-step shift-and-XOR multiplication.
pub proof fn lemma_gf8_mul_matches_reference(a: u8, b: u8)
    ensures
        ref8_steps(0, a, b, 8) == gf8_mul(a, b),
{
    lemma2_to64();
    lemma_ref8_steps(0, a, b, 8);
    lemma_bits_u8(gf8_mul(a, b), 0, 0, 0);
}

/// Multiplication in GF(2^8) by shift-and-add over the bits of `b`.
pub fn mul(a: u8, b: u8) -> (r: u8)
    ensures
        r == gf8_mul(a, b),
{
    let ghost target = gf8_mul(a, b);
    let mut a = a;
    let mut b = b;
    let mut p: u8 = 0;
    let mut i: u32 = 0;
    proof {
        lemma2_to64();
        lemma_bits_u8(target, 0, 0, 0);
    }
    while i < 8
        invariant
            i <= 8,
            p ^ gf8_mul(a, b) == target,
            b as int * pow2(i as nat) < 0x100,
        decreases 8 - i,
    {
        let ghost p0 = p;
        let ghost a0 = a;
        let ghost b0 = b;
        proof {
            lemma_bits_u8(0, 0, 0, b);
        }
        if b & 1 != 0 {
            p ^= a;
        }
        let hi = a & 0x80u8;
        a <<= 1u8;
        if hi != 0 {
            a ^= 0x1Bu8;
        }
        b >>= 1u8;
        proof {
            let rest = gf8_mul(xtime8(a0), b0 / 2);
            if b0 != 0 {
                lemma_bits_u8(p0, a0, rest, 0);
            } else {
                assert(gf8_mul(a, b) == 0 && gf8_mul(a0, b0) == 0);
            }
            lemma_pow2_unfold((i + 1) as nat);
            assert((b0 / 2) as int * pow2((i + 1) as nat) <= b0 as int * pow2(i as nat))
                by (nonlinear_arith)
                requires
                    pow2((i + 1) as nat) == 2 * pow2(i as nat),
            ;
        }
        i = i + 1;
    }
    proof {
        assert(b == 0) by (nonlinear_arith)
            requires
                b as int * pow2(8) < 0x100,
                pow2(8) == 0x100,
        ;
        lemma_bits_u8(p, 0, 0, 0);
    }
    p
}

} // verus!
