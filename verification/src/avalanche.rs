//! Avalanche measurement: how many state bits change when one input bit does.
use crate::pi_b;
use crate::pi_b::spec_pi_b;
use crate::state::Lane;
use vstd::prelude::*;

verus! {

/// The number of set bits of a word.
pub open spec fn popcount(x: u64) -> nat
    decreases x,
{
    if x == 0 {
        0
    } else {
        (x % 2) as nat + popcount(x / 2)
    }
}

/// The number of bit positions in which two lanes differ.
pub open spec fn lane_distance(a: Lane, b: Lane) -> nat {
    popcount(a.hi ^ b.hi) + popcount(a.lo ^ b.lo)
}

/// The number of bit positions in which the first `n` lanes of two states differ.
pub open spec fn state_distance(s: Seq<Lane>, t: Seq<Lane>, n: nat) -> nat
    decreases n,
{
    if n == 0 {
        0
    } else {
        state_distance(s, t, (n - 1) as nat) + lane_distance(s[n - 1], t[n - 1])
    }
}

/// The state with the lowest bit of lane 0 flipped.
pub open spec fn flip_first_bit(s: Seq<Lane>) -> Seq<Lane> {
    s.update(0, Lane { hi: s[0].hi, lo: s[0].lo ^ 1 })
}

/// The low bit and the halving of a word.
proof fn lemma_low_bit(x: u64)
    by (bit_vector)
    ensures
        x & 1 == x % 2,
        x >> 1u64 == x / 2,
{
}

/// A word has at most 64 set bits.
proof fn lemma_popcount_bound(x: u64, k: nat)
    requires
        x < pow2_64(k),
        k <= 64,
    ensures
        popcount(x) <= k,
    decreases k,
{
    if k > 0 && x > 0 {
        lemma_popcount_bound(x / 2, (k - 1) as nat);
    }
}

/// `2^k` for `k <= 64`, as an integer.
pub open spec fn pow2_64(k: nat) -> int
    decreases k,
{
    if k == 0 {
        1
    } else {
        2 * pow2_64((k - 1) as nat)
    }
}

proof fn lemma_pow2_64_top()
    ensures
        pow2_64(64) == 0x1_0000_0000_0000_0000int,
{
    reveal_with_fuel(pow2_64, 65);
}

/// Counts the set bits of a word.
fn popcount_word(x: u64) -> (r: u32)
    ensures
        r == popcount(x),
        r <= 64,
{
    proof {
        lemma_pow2_64_top();
        lemma_popcount_bound(x, 64);
    }
    let mut y = x;
    let mut count: u32 = 0;
    while y != 0
        invariant
            count + popcount(y) == popcount(x),
            popcount(x) <= 64,
        decreases y,
    {
        proof {
            lemma_low_bit(y);
        }
        count = count + (y & 1) as u32;
        y = y >> 1u64;
    }
    count
}

/// The number of bit positions in which two lanes differ.
pub fn count_set_bits(a: Lane, b: Lane) -> (r: u32)
    ensures
        r == lane_distance(a, b),
        r <= 128,
{
    let xor_hi = a.hi ^ b.hi;
    let xor_lo = a.lo ^ b.lo;
    popcount_word(xor_hi) + popcount_word(xor_lo)
}

/// Applies layer B to a state and to the same state with one bit flipped,
/// and counts the output bits that differ.
pub fn avalanche_bits(lanes: &[Lane; 128]) -> (r: u32)
    ensures
        r == state_distance(spec_pi_b(lanes@), spec_pi_b(flip_first_bit(lanes@)), 128),
{
    let mut baseline = *lanes;
    pi_b::pi_b(&mut baseline);
    let mut flipped = *lanes;
    let l0 = flipped[0];
    flipped[0] = Lane::new(l0.hi, l0.lo ^ 1);
    assert(flipped@ =~= flip_first_bit(lanes@));
    pi_b::pi_b(&mut flipped);
    let mut total: u32 = 0;
    let mut i: usize = 0;
    while i < 128
        invariant
            i <= 128,
            baseline@ == spec_pi_b(lanes@),
            flipped@ == spec_pi_b(flip_first_bit(lanes@)),
            total == state_distance(baseline@, flipped@, i as nat),
            total <= 128 * i,
        decreases 128 - i,
    {
        let d = count_set_bits(baseline[i], flipped[i]);
        total = total + d;
        i = i + 1;
    }
    total
}

} // verus!
