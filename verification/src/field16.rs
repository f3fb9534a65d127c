//! Arithmetic in the binary field GF(2^16) with modulus x^16 + x^5 + x^3 + x + 1.
use vstd::arithmetic::power2::*;
use vstd::prelude::*;

verus! {

/// Multiplication by `x` modulo the field polynomial.
pub open spec fn xtime16(a: u16) -> u16 {
    if a & 0x8000u16 != 0 {
        (a << 1u16) ^ 0x002Bu16
    } else {
        a << 1u16
    }
}

/// The product of two field elements: the sum, over the set bits `i` of `b`,
/// of `a * x^i`, each `a * x^i` obtained from `a` by `i` applications of `xtime16`.
pub open spec fn gf16_mul(a: u16, b: u16) -> u16
    decreases b,
{
    if b == 0 {
        0
    } else {
        let rest = gf16_mul(xtime16(a), b / 2);
        if b % 2 == 1 {
            a ^ rest
        } else {
            rest
        }
    }
}

/// XOR identities and the low bit and halving of a 16-bit value.
proof fn lemma_bits_u16(p: u16, a: u16, r: u16, b: u16)
    by (bit_vector)
    ensures
        0u16 ^ p == p,
        p ^ 0u16 == p,
        p ^ (a ^ r) == (p ^ a) ^ r,
        (b & 1 != 0) == (b % 2 == 1),
        b >> 1u16 == b / 2,
{
}

/// XOR and halving facts behind the linearity of the product.
proof fn lemma_linear_bits_u16(a: u16, x: u16, y: u16, b: u16, c: u16)
    by (bit_vector)
    ensures
        (b ^ c) / 2 == (b / 2) ^ (c / 2),
        ((b ^ c) % 2 == 1) == ((b % 2 == 1) != (c % 2 == 1)),
        (a ^ x) ^ (a ^ y) == x ^ y,
        (a ^ x) ^ y == a ^ (x ^ y),
        x ^ (a ^ y) == a ^ (x ^ y),
        x ^ x == 0,
        0u16 ^ x == x,
        0u16 ^ y == y,
        x ^ 0u16 == x,
        (b ^ c == 0) == (b == c),
        0u16 ^ c == c,
        b ^ 0u16 == b,
{
}

/// The product is additive (XOR-linear) in its right argument.
pub proof fn lemma_gf16_mul_linear_right(a: u16, b: u16, c: u16)
    ensures
        gf16_mul(a, b ^ c) == gf16_mul(a, b) ^ gf16_mul(a, c),
    decreases b + c,
{
    lemma_linear_bits_u16(a, gf16_mul(a, b), gf16_mul(a, c), b, c);
    if b == 0 {
        assert(b ^ c == c);
    } else if c == 0 {
        assert(b ^ c == b);
    } else if b ^ c == 0 {
        assert(b == c);
    } else {
        let xa = xtime16(a);
        let bc: u16 = b ^ c;
        lemma_gf16_mul_linear_right(xa, b / 2, c / 2);
        let rb = gf16_mul(xa, b / 2);
        let rc = gf16_mul(xa, c / 2);
        lemma_linear_bits_u16(a, rb, rc, b, c);
        assert(bc / 2 == (b / 2) ^ (c / 2));
        assert(gf16_mul(xa, bc / 2) == rb ^ rc);
        assert(gf16_mul(a, bc) == if bc % 2 == 1 { a ^ (rb ^ rc) } else { rb ^ rc });
        assert(gf16_mul(a, b) == if b % 2 == 1 { a ^ rb } else { rb });
        assert(gf16_mul(a, c) == if c % 2 == 1 { a ^ rc } else { rc });
    }
}

/// `n` steps of the iterative shift-and-XOR product: while the bits of `b`
/// are consumed from the bottom, `a` is added to `p` for each set bit and
/// multiplied by `x`.
pub open spec fn ref16_steps(p: u16, a: u16, b: u16, n: nat) -> u16
    decreases n,
{
    if n == 0 {
        p
    } else {
        ref16_steps(if b & 1 != 0 { p ^ a } else { p }, xtime16(a), b >> 1u16, (n - 1) as nat)
    }
}

proof fn lemma_ref16_steps(p: u16, a: u16, b: u16, n: nat)
    requires
        b < pow2(n),
    ensures
        ref16_steps(p, a, b, n) == p ^ gf16_mul(a, b),
    decreases n,
{
    lemma2_to64();
    lemma_bits_u16(p, a, gf16_mul(xtime16(a), b / 2), b);
    if n > 0 {
        lemma_pow2_unfold(n);
        let p1 = if b & 1 != 0 { p ^ a } else { p };
        lemma_ref16_steps(p1, xtime16(a), b >> 1u16, (n - 1) as nat);
        lemma_bits_u16(p1, 0, 0, 0);
        if b == 0 {
            assert(gf16_mul(xtime16(a), 0) == 0);
        }
    }
}

/// The product equals the iterative 16-step shift-and-XOR multiplication.
pub proof fn lemma_gf16_mul_matches_reference(a: u16, b: u16)
    ensures
        ref16_steps(0, a, b, 16) == gf16_mul(a, b),
{
    lemma2_to64();
    lemma_ref16_steps(0, a, b, 16);
    lemma_bits_u16(gf16_mul(a, b), 0, 0, 0);
}

/// Multiplication in GF(2^16) by shift-and-add over the bits of `b`.
pub fn mul(a: u16, b: u16) -> (r: u16)
    ensures
        r == gf16_mul(a, b),
{
    let ghost target = gf16_mul(a, b);
    let mut a = a;
    let mut b = b;
    let mut p: u16 = 0;
    let mut i: u32 = 0;
    proof {
        lemma2_to64();
        lemma_bits_u16(target, 0, 0, 0);
    }
    while i < 16
        invariant
            i <= 16,
            p ^ gf16_mul(a, b) == target,
            b as int * pow2(i as nat) < 0x10000,
        decreases 16 - i,
    {
        let ghost p0 = p;
        let ghost a0 = a;
        let ghost b0 = b;
        proof {
            lemma_bits_u16(0, 0, 0, b);
        }
        if b & 1 != 0 {
            p ^= a;
        }
        let hi = a & 0x8000u16;
        a <<= 1u16;
        if hi != 0 {
            a ^= 0x002Bu16;
        }
        b >>= 1u16;
        proof {
            let rest = gf16_mul(xtime16(a0), b0 / 2);
            if b0 != 0 {
                lemma_bits_u16(p0, a0, rest, 0);
            } else {
                assert(gf16_mul(a, b) == 0 && gf16_mul(a0, b0) == 0);
            }
            lemma_pow2_unfold((i + 1) as nat);
            assert((b0 / 2) as int * pow2((i + 1) as nat) <= b0 as int * pow2(i as nat))
                by (nonlinear_arith)
                requires
                    pow2((i + 1) as nat) == 2 * pow2(i as nat),
            ;
        }
        i = i + 1;
    }
    proof {
        assert(b == 0) by (nonlinear_arith)
            requires
                b as int * pow2(16) < 0x10000,
                pow2(16) == 0x10000,
        ;
        lemma_bits_u16(p, 0, 0, 0);
    }
    p
}

} // verus!
