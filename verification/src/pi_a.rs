//! Layer A of the permutation: an ARX network over 32- and 64-bit words.
use crate::constants::{lemma_sigmas_are_derangements, rc_a, sigma_a, spec_rc_a, spec_sigma_a, spec_sigma_a_inv};
use crate::state::Lane;
use vstd::prelude::*;

verus! {

/// Rotation of a 32-bit word to the left by `k` places (0 < k < 32).
pub open spec fn rotl32(x: u32, k: u32) -> u32 {
    (x << k) | (x >> ((32 - k) as u32))
}

/// Rotation of a 64-bit word to the left by `k` places (0 < k < 64).
pub open spec fn rotl64(x: u64, k: u64) -> u64 {
    (x << k) | (x >> ((64 - k) as u64))
}

/// Rotation of a 32-bit word to the left by `k` places.
fn rotate_left32(x: u32, k: u32) -> (r: u32)
    requires
        0 < k < 32,
    ensures
        r == rotl32(x, k),
{
    (x << k) | (x >> (32 - k))
}

/// Rotation of a 64-bit word to the left by `k` places.
fn rotate_left64(x: u64, k: u64) -> (r: u64)
    requires
        0 < k < 64,
    ensures
        r == rotl64(x, k),
{
    (x << k) | (x >> (64 - k))
}

/// Wrapping addition, and the ARX steps on 32-bit words undone by rotating
/// back and subtracting or XORing.
proof fn lemma_arx32(x: u32, y: u32, z: u32, k: u32)
    by (bit_vector)
    requires
        0 < k < 32,
    ensures
        x.wrapping_add(y) == (x + y) as u32,
        rotr32(((rotl32(y ^ x, k) + z) as u32 - z) as u32, k) ^ x == y,
        (rotr32(rotl32((x + y) as u32, k) ^ z ^ z, k) - y) as u32 == x,
{
}

/// Wrapping addition on 64-bit words, and the facts that undo an ARX step:
/// rotating back, subtracting the added word, XORing the same word again.
proof fn lemma_arx64(x: u64, y: u64, v: u64, k: u64)
    by (bit_vector)
    requires
        0 < k < 64,
    ensures
        x.wrapping_add(y) == (x + y) as u64,
        rotr64(rotl64(v, k), k) == v,
        (((x + y) as u64) - y) as u64 == x,
        (y ^ x) ^ x == y,
{
}

/// Splitting a 64-bit word into 32-bit words and joining them back.
proof fn lemma_words(h: u64, w0: u32, w1: u32)
    by (bit_vector)
    ensures
        ((((h >> 32u64) as u32) as u64) << 32u64) | ((h as u32) as u64) == h,
        (((((w0 as u64) << 32u64) | (w1 as u64)) >> 32u64) as u32) == w0,
        ((((w0 as u64) << 32u64) | (w1 as u64)) as u32) == w1,
        (h & 0xFFFF_FFFFu64) as u32 == h as u32,
        (w0 ^ w1) ^ w1 == w0,
{
}

/// One round of the four-branch 32-bit ARX network of SubWord_A.
pub open spec fn arx_step(t: (u32, u32, u32, u32)) -> (u32, u32, u32, u32) {
    let a = rotl32((t.0 + t.1) as u32, 13) ^ t.2;
    let b = (rotl32(t.1 ^ t.2, 19) + t.3) as u32;
    let c = rotl32((t.2 + t.3) as u32, 23) ^ a;
    let d = (rotl32(t.3 ^ a, 7) + b) as u32;
    (a, b, c, d)
}

/// `n` rounds of the ARX network.
pub open spec fn arx_steps(t: (u32, u32, u32, u32), n: nat) -> (u32, u32, u32, u32)
    decreases n,
{
    if n == 0 {
        t
    } else {
        arx_step(arx_steps(t, (n - 1) as nat))
    }
}

/// The four 32-bit words of a lane, most significant first.
pub open spec fn lane_words(l: Lane) -> (u32, u32, u32, u32) {
    ((l.hi >> 32u64) as u32, l.hi as u32, (l.lo >> 32u64) as u32, l.lo as u32)
}

/// The lane made of four 32-bit words, most significant first.
pub open spec fn words_lane(t: (u32, u32, u32, u32)) -> Lane {
    Lane { hi: ((t.0 as u64) << 32u64) | (t.1 as u64), lo: ((t.2 as u64) << 32u64) | (t.3 as u64) }
}

/// SubWord_A: eight ARX rounds on the four words of the lane, then the upper
/// half of the round constant XORed into the two upper words.
pub open spec fn spec_sub_word_a(lane: Lane, rc0: Lane) -> Lane {
    let t = arx_steps(lane_words(lane), 8);
    words_lane((t.0 ^ ((rc0.hi >> 32u64) as u32), t.1 ^ (rc0.hi as u32), t.2, t.3))
}

/// SubWord_A on one lane.
fn sub_word_a(lane: Lane, rc0: Lane) -> (r: Lane)
    ensures
        r == spec_sub_word_a(lane, rc0),
{
    let lh = lane.hi;
    let ll = lane.lo;
    let mut a = (lh >> 32u64) as u32;
    let mut b = (lh & 0xFFFF_FFFFu64) as u32;
    let mut c = (ll >> 32u64) as u32;
    let mut d = (ll & 0xFFFF_FFFFu64) as u32;
    proof {
        lemma_words(lh, 0, 0);
        lemma_words(ll, 0, 0);
    }
    let mut i: u32 = 0;
    while i < 8
        invariant
            i <= 8,
            (a, b, c, d) == arx_steps(lane_words(lane), i as nat),
        decreases 8 - i,
    {
        let ghost t = (a, b, c, d);
        proof {
            lemma_arx32(a, b, 0, 1);
        }
        a = rotate_left32(a.wrapping_add(b), 13) ^ c;
        proof {
            lemma_arx32(rotl32(b ^ c, 19), d, 0, 1);
            lemma_arx32(c, d, 0, 1);
        }
        b = rotate_left32(b ^ c, 19).wrapping_add(d);
        c = rotate_left32(c.wrapping_add(d), 23) ^ a;
        proof {
            lemma_arx32(rotl32(d ^ a, 7), b, 0, 1);
        }
        d = rotate_left32(d ^ a, 7).wrapping_add(b);
        assert((a, b, c, d) == arx_step(t));
        i = i + 1;
    }
    let rh = rc0.hi;
    proof {
        lemma_words(rh, 0, 0);
    }
    a ^= (rh >> 32u64) as u32;
    b ^= (rh & 0xFFFF_FFFFu64) as u32;
    Lane::new(((a as u64) << 32u64) | (b as u64), ((c as u64) << 32u64) | (d as u64))
}

/// MixPair_A on one 64-bit half of a lane pair: four ARX rounds.
pub open spec fn spec_mix_halves(x0: u64, y0: u64) -> (u64, u64) {
    let x1 = rotl64((x0 + y0) as u64, 26);
    let y1 = rotl64(y0 ^ x1, 39);
    let x2 = rotl64((x1 + y1) as u64, 46);
    let y2 = rotl64(y1 ^ x2, 19);
    let x3 = rotl64((x2 + y2) as u64, 13);
    let y3 = rotl64(y2 ^ x3, 41);
    let x4 = rotl64((x3 + y3) as u64, 15);
    let y4 = rotl64(y3 ^ x4, 35);
    (x4, y4)
}

/// MixPair_A: the same four-round ARX mixing on the upper and on the lower halves.
pub open spec fn spec_mix_pair_a(a: Lane, b: Lane) -> (Lane, Lane) {
    let h = spec_mix_halves(a.hi, b.hi);
    let l = spec_mix_halves(a.lo, b.lo);
    (Lane { hi: h.0, lo: l.0 }, Lane { hi: h.1, lo: l.1 })
}

/// MixPair_A on two lanes.
fn mix_pair_a(a: Lane, b: Lane) -> (r: (Lane, Lane))
    ensures
        r == spec_mix_pair_a(a, b),
{
    let mut a = a;
    let mut b = b;
    let ghost (ah, bh, al, bl) = (a.hi, b.hi, a.lo, b.lo);
    proof {
        lemma_arx64(a.hi, b.hi, 0, 1);
        lemma_arx64(a.lo, b.lo, 0, 1);
    }
    a.hi = rotate_left64(a.hi.wrapping_add(b.hi), 26);
    a.lo = rotate_left64(a.lo.wrapping_add(b.lo), 26);
    b.hi = rotate_left64(b.hi ^ a.hi, 39);
    b.lo = rotate_left64(b.lo ^ a.lo, 39);

    proof {
        lemma_arx64(a.hi, b.hi, 0, 1);
        lemma_arx64(a.lo, b.lo, 0, 1);
    }
    a.hi = rotate_left64(a.hi.wrapping_add(b.hi), 46);
    a.lo = rotate_left64(a.lo.wrapping_add(b.lo), 46);
    b.hi = rotate_left64(b.hi ^ a.hi, 19);
    b.lo = rotate_left64(b.lo ^ a.lo, 19);

    proof {
        lemma_arx64(a.hi, b.hi, 0, 1);
        lemma_arx64(a.lo, b.lo, 0, 1);
    }
    a.hi = rotate_left64(a.hi.wrapping_add(b.hi), 13);
    a.lo = rotate_left64(a.lo.wrapping_add(b.lo), 13);
    b.hi = rotate_left64(b.hi ^ a.hi, 41);
    b.lo = rotate_left64(b.lo ^ a.lo, 41);

    proof {
        lemma_arx64(a.hi, b.hi, 0, 1);
        lemma_arx64(a.lo, b.lo, 0, 1);
    }
    a.hi = rotate_left64(a.hi.wrapping_add(b.hi), 15);
    a.lo = rotate_left64(a.lo.wrapping_add(b.lo), 15);
    b.hi = rotate_left64(b.hi ^ a.hi, 35);
    b.lo = rotate_left64(b.lo ^ a.lo, 35);

    (a, b)
}

/// The lane made of a round-constant pair.
pub open spec fn rc_lane(c: (u64, u64)) -> Lane {
    Lane { hi: c.0, lo: c.1 }
}

/// SubWord_A on every lane, with the round's first constant.
pub open spec fn sub_all(s: Seq<Lane>, rc0: Lane) -> Seq<Lane> {
    Seq::new(128, |i: int| spec_sub_word_a(s[i], rc0))
}

/// MixPair_A on the pairs (0,1), (2,3), ..., (126,127).
pub open spec fn mix_even(s: Seq<Lane>) -> Seq<Lane> {
    Seq::new(
        128,
        |k: int|
            if k % 2 == 0 {
                spec_mix_pair_a(s[k], s[k + 1]).0
            } else {
                spec_mix_pair_a(s[k - 1], s[k]).1
            },
    )
}

/// MixPair_A on the pairs (1,2), (3,4), ..., (125,126); lanes 0 and 127 are left alone.
pub open spec fn mix_odd(s: Seq<Lane>) -> Seq<Lane> {
    Seq::new(
        128,
        |k: int|
            if k % 2 == 1 && k < 127 {
                spec_mix_pair_a(s[k], s[k + 1]).0
            } else if k % 2 == 0 && k > 0 {
                spec_mix_pair_a(s[k - 1], s[k]).1
            } else {
                s[k]
            },
    )
}

/// MixPair_A on the wrap-around pair (127, 0).
pub open spec fn mix_wrap(s: Seq<Lane>) -> Seq<Lane> {
    let m = spec_mix_pair_a(s[127], s[0]);
    s.update(127, m.0).update(0, m.1)
}

/// Routing by sigma_A, then the per-lane round constants XORed in.
pub open spec fn route_a(s: Seq<Lane>, r: int) -> Seq<Lane> {
    Seq::new(
        128,
        |i: int|
            Lane {
                hi: s[spec_sigma_a(i)].hi ^ spec_rc_a(r, i).0,
                lo: s[spec_sigma_a(i)].lo ^ spec_rc_a(r, i).1,
            },
    )
}

/// Round `r` of layer A.
pub open spec fn round_a(s: Seq<Lane>, r: int) -> Seq<Lane> {
    route_a(mix_wrap(mix_odd(mix_even(sub_all(s, rc_lane(spec_rc_a(r, 0)))))), r)
}

/// The first `n` rounds of layer A.
pub open spec fn pi_a_rounds(s: Seq<Lane>, n: nat) -> Seq<Lane>
    decreases n,
{
    if n == 0 {
        s
    } else {
        round_a(pi_a_rounds(s, (n - 1) as nat), n - 1)
    }
}

/// Layer A: 32 rounds.
pub open spec fn spec_pi_a(s: Seq<Lane>) -> Seq<Lane> {
    pi_a_rounds(s, 32)
}

/// Applies layer A to the 128 lanes in place.
pub fn pi_a(lanes: &mut [Lane; 128])
    ensures
        final(lanes)@ == spec_pi_a(old(lanes)@),
{
    let ghost s0 = lanes@;
    let mut r: usize = 0;
    while r < 32
        invariant
            r <= 32,
            lanes@ == pi_a_rounds(s0, r as nat),
        decreases 32 - r,
    {
        let ghost s = lanes@;
        let (c0h, c0l) = rc_a(r, 0);
        let rc0 = Lane::new(c0h, c0l);
        let mut i: usize = 0;
        while i < 128
            invariant
                i <= 128,
                lanes@.len() == 128,
                forall|j: int| 0 <= j < i ==> lanes@[j] == spec_sub_word_a(s[j], rc0),
                forall|j: int| i <= j < 128 ==> lanes@[j] == s[j],
            decreases 128 - i,
        {
            lanes[i] = sub_word_a(lanes[i], rc0);
            i = i + 1;
        }
        let ghost s1 = lanes@;
        assert(s1 =~= sub_all(s, rc0));

        let mut k: usize = 0;
        while k < 128
            invariant
                k <= 128,
                k % 2 == 0,
                lanes@.len() == 128,
                forall|j: int| 0 <= j < k ==> lanes@[j] == #[trigger] mix_even(s1)[j],
                forall|j: int| k <= j < 128 ==> lanes@[j] == s1[j],
            decreases 128 - k,
        {
            let (x, y) = mix_pair_a(lanes[k], lanes[k + 1]);
            lanes[k] = x;
            lanes[k + 1] = y;
            k = k + 2;
        }
        let ghost s2 = lanes@;
        assert(s2 =~= mix_even(s1));

        let mut k: usize = 1;
        while k < 127
            invariant
                1 <= k <= 127,
                k % 2 == 1,
                lanes@.len() == 128,
                lanes@[0] == s2[0],
                forall|j: int| 1 <= j < k ==> lanes@[j] == #[trigger] mix_odd(s2)[j],
                forall|j: int| k <= j < 128 ==> lanes@[j] == s2[j],
            decreases 127 - k,
        {
            let (x, y) = mix_pair_a(lanes[k], lanes[k + 1]);
            lanes[k] = x;
            lanes[k + 1] = y;
            k = k + 2;
        }
        let ghost s3 = lanes@;
        assert(s3 =~= mix_odd(s2));

        let (x, y) = mix_pair_a(lanes[127], lanes[0]);
        lanes[127] = x;
        lanes[0] = y;
        let ghost s4 = lanes@;
        assert(s4 =~= mix_wrap(s3));

        let mut next = [Lane::new(0, 0); 128];
        let mut i: usize = 0;
        while i < 128
            invariant
                i <= 128,
                lanes@ == s4,
                next@.len() == 128,
                forall|j: int| 0 <= j < i ==> next@[j] == s4[spec_sigma_a(j)],
            decreases 128 - i,
        {
            next[i] = lanes[sigma_a(i)];
            i = i + 1;
        }

        let mut i: usize = 0;
        while i < 128
            invariant
                i <= 128,
                r < 32,
                s4.len() == 128,
                next@.len() == 128,
                forall|j: int|
                    0 <= j < i ==> next@[j] == (Lane {
                        hi: s4[spec_sigma_a(j)].hi ^ spec_rc_a(r as int, j).0,
                        lo: s4[spec_sigma_a(j)].lo ^ spec_rc_a(r as int, j).1,
                    }),
                forall|j: int| i <= j < 128 ==> next@[j] == s4[spec_sigma_a(j)],
            decreases 128 - i,
        {
            let (ch, cl) = rc_a(r, i);
            let l = next[i];
            next[i] = Lane::new(l.hi ^ ch, l.lo ^ cl);
            i = i + 1;
        }
        *lanes = next;
        assert(lanes@ =~= route_a(s4, r as int));
        r = r + 1;
    }
}

/// Rotation of a 32-bit word to the right by `k` places (0 < k < 32).
pub open spec fn rotr32(x: u32, k: u32) -> u32 {
    (x >> k) | (x << ((32 - k) as u32))
}

/// Rotation of a 64-bit word to the right by `k` places (0 < k < 64).
pub open spec fn rotr64(x: u64, k: u64) -> u64 {
    (x >> k) | (x << ((64 - k) as u64))
}

/// The inverse of one ARX round.
pub open spec fn inv_arx_step(t: (u32, u32, u32, u32)) -> (u32, u32, u32, u32) {
    let (a, b, c, d) = t;
    let d0 = rotr32((d - b) as u32, 7) ^ a;
    let c0 = (rotr32(c ^ a, 23) - d0) as u32;
    let b0 = rotr32((b - d0) as u32, 19) ^ c0;
    let a0 = (rotr32(a ^ c0, 13) - b0) as u32;
    (a0, b0, c0, d0)
}

/// The inverse of `n` ARX rounds.
pub open spec fn inv_arx_steps(t: (u32, u32, u32, u32), n: nat) -> (u32, u32, u32, u32)
    decreases n,
{
    if n == 0 {
        t
    } else {
        inv_arx_steps(inv_arx_step(t), (n - 1) as nat)
    }
}

/// The inverse of SubWord_A for a given round constant.
pub open spec fn spec_inv_sub_word_a(lane: Lane, rc0: Lane) -> Lane {
    let t = lane_words(lane);
    words_lane(inv_arx_steps((t.0 ^ ((rc0.hi >> 32u64) as u32), t.1 ^ (rc0.hi as u32), t.2, t.3), 8))
}

/// The inverse of MixPair_A on one pair of halves.
pub open spec fn spec_inv_mix_halves(x4: u64, y4: u64) -> (u64, u64) {
    let y3 = rotr64(y4, 35) ^ x4;
    let x3 = (rotr64(x4, 15) - y3) as u64;
    let y2 = rotr64(y3, 41) ^ x3;
    let x2 = (rotr64(x3, 13) - y2) as u64;
    let y1 = rotr64(y2, 19) ^ x2;
    let x1 = (rotr64(x2, 46) - y1) as u64;
    let y0 = rotr64(y1, 39) ^ x1;
    let x0 = (rotr64(x1, 26) - y0) as u64;
    (x0, y0)
}

/// The inverse of MixPair_A.
pub open spec fn spec_inv_mix_pair_a(a: Lane, b: Lane) -> (Lane, Lane) {
    let h = spec_inv_mix_halves(a.hi, b.hi);
    let l = spec_inv_mix_halves(a.lo, b.lo);
    (Lane { hi: h.0, lo: l.0 }, Lane { hi: h.1, lo: l.1 })
}

proof fn lemma_arx_step_invertible(t: (u32, u32, u32, u32))
    ensures
        inv_arx_step(arx_step(t)) == t,
{
    let (a, b, c, d) = t;
    let a1 = rotl32((a + b) as u32, 13) ^ c;
    let b1 = (rotl32(b ^ c, 19) + d) as u32;
    let c1 = rotl32((c + d) as u32, 23) ^ a1;
    let d1 = (rotl32(d ^ a1, 7) + b1) as u32;
    lemma_arx32(a1, d, b1, 7);
    lemma_arx32(c, d, a1, 23);
    lemma_arx32(c, b, d, 19);
    lemma_arx32(a, b, c, 13);
}

proof fn lemma_arx_steps_invertible(t: (u32, u32, u32, u32), n: nat)
    ensures
        inv_arx_steps(arx_steps(t, n), n) == t,
    decreases n,
{
    if n > 0 {
        lemma_arx_step_invertible(arx_steps(t, (n - 1) as nat));
        lemma_arx_steps_invertible(t, (n - 1) as nat);
    }
}

proof fn lemma_words_roundtrip(l: Lane, t: (u32, u32, u32, u32))
    ensures
        words_lane(lane_words(l)) == l,
        lane_words(words_lane(t)) == t,
{
    let (h, o) = (l.hi, l.lo);
    let (w0, w1, w2, w3) = t;
    lemma_words(h, w0, w1);
    lemma_words(o, w2, w3);
}

/// SubWord_A is a bijection on lanes: undoing it with the same round constant
/// gives the lane back.
pub proof fn lemma_sub_word_a_invertible(lane: Lane, rc0: Lane)
    ensures
        spec_inv_sub_word_a(spec_sub_word_a(lane, rc0), rc0) == lane,
{
    let t = arx_steps(lane_words(lane), 8);
    let ka = (rc0.hi >> 32u64) as u32;
    let kb = rc0.hi as u32;
    let u = (t.0 ^ ka, t.1 ^ kb, t.2, t.3);
    lemma_words_roundtrip(lane, u);
    let (t0, t1) = (t.0, t.1);
    lemma_words(0, t0, ka);
    lemma_words(0, t1, kb);
    lemma_arx_steps_invertible(lane_words(lane), 8);
    lemma_words_roundtrip(lane, lane_words(lane));
}

proof fn lemma_mix_halves_invertible(x0: u64, y0: u64)
    ensures
        spec_inv_mix_halves(spec_mix_halves(x0, y0).0, spec_mix_halves(x0, y0).1) == (x0, y0),
{
    let x1 = rotl64((x0 + y0) as u64, 26);
    let y1 = rotl64(y0 ^ x1, 39);
    let x2 = rotl64((x1 + y1) as u64, 46);
    let y2 = rotl64(y1 ^ x2, 19);
    let x3 = rotl64((x2 + y2) as u64, 13);
    let y3 = rotl64(y2 ^ x3, 41);
    let x4 = rotl64((x3 + y3) as u64, 15);
    let y4 = rotl64(y3 ^ x4, 35);
    lemma_arx64(x4, y3, y3 ^ x4, 35);
    lemma_arx64(x3, y3, (x3 + y3) as u64, 15);
    lemma_arx64(x3, y2, y2 ^ x3, 41);
    lemma_arx64(x2, y2, (x2 + y2) as u64, 13);
    lemma_arx64(x2, y1, y1 ^ x2, 19);
    lemma_arx64(x1, y1, (x1 + y1) as u64, 46);
    lemma_arx64(x1, y0, y0 ^ x1, 39);
    lemma_arx64(x0, y0, (x0 + y0) as u64, 26);
}

/// MixPair_A is a bijection on lane pairs.
pub proof fn lemma_mix_pair_a_invertible(a: Lane, b: Lane)
    ensures
        spec_inv_mix_pair_a(spec_mix_pair_a(a, b).0, spec_mix_pair_a(a, b).1) == (a, b),
{
    lemma_mix_halves_invertible(a.hi, b.hi);
    lemma_mix_halves_invertible(a.lo, b.lo);
}

proof fn lemma_sub_word_a_injective(x: Lane, y: Lane, rc0: Lane)
    requires
        spec_sub_word_a(x, rc0) == spec_sub_word_a(y, rc0),
    ensures
        x == y,
{
    lemma_sub_word_a_invertible(x, rc0);
    lemma_sub_word_a_invertible(y, rc0);
}

proof fn lemma_mix_pair_a_injective(a: Lane, b: Lane, c: Lane, d: Lane)
    requires
        spec_mix_pair_a(a, b).0 == spec_mix_pair_a(c, d).0,
        spec_mix_pair_a(a, b).1 == spec_mix_pair_a(c, d).1,
    ensures
        a == c,
        b == d,
{
    lemma_mix_pair_a_invertible(a, b);
    lemma_mix_pair_a_invertible(c, d);
}

proof fn lemma_sub_all_injective(s: Seq<Lane>, t: Seq<Lane>, rc0: Lane)
    requires
        s.len() == 128,
        t.len() == 128,
        sub_all(s, rc0) == sub_all(t, rc0),
    ensures
        s == t,
{
    assert forall|i: int| 0 <= i < 128 implies s[i] == t[i] by {
        assert(sub_all(s, rc0)[i] == sub_all(t, rc0)[i]);
        assert(sub_all(s, rc0)[i] == spec_sub_word_a(s[i], rc0));
        assert(sub_all(t, rc0)[i] == spec_sub_word_a(t[i], rc0));
        lemma_sub_word_a_injective(s[i], t[i], rc0);
    }
    assert(s =~= t);
}

proof fn lemma_mix_even_injective(s: Seq<Lane>, t: Seq<Lane>)
    requires
        s.len() == 128,
        t.len() == 128,
        mix_even(s) == mix_even(t),
    ensures
        s == t,
{
    assert forall|i: int| 0 <= i < 128 implies s[i] == t[i] by {
        let k = i - i % 2;
        assert(k % 2 == 0 && (k + 1) % 2 == 1 && 0 <= k && k + 1 < 128);
        assert(mix_even(s)[k] == mix_even(t)[k]);
        assert(mix_even(s)[k + 1] == mix_even(t)[k + 1]);
        assert(mix_even(s)[k] == spec_mix_pair_a(s[k], s[k + 1]).0);
        assert(mix_even(t)[k] == spec_mix_pair_a(t[k], t[k + 1]).0);
        assert(mix_even(s)[k + 1] == spec_mix_pair_a(s[k], s[k + 1]).1);
        assert(mix_even(t)[k + 1] == spec_mix_pair_a(t[k], t[k + 1]).1);
        lemma_mix_pair_a_injective(s[k], s[k + 1], t[k], t[k + 1]);
    }
    assert(s =~= t);
}

proof fn lemma_mix_odd_injective(s: Seq<Lane>, t: Seq<Lane>)
    requires
        s.len() == 128,
        t.len() == 128,
        mix_odd(s) == mix_odd(t),
    ensures
        s == t,
{
    assert forall|i: int| 0 <= i < 128 implies s[i] == t[i] by {
        if i == 0 || i == 127 {
            assert(mix_odd(s)[i] == mix_odd(t)[i]);
            assert(mix_odd(s)[i] == s[i] && mix_odd(t)[i] == t[i]);
        } else {
            let k = if i % 2 == 1 { i } else { i - 1 };
            assert(k % 2 == 1 && (k + 1) % 2 == 0 && 0 < k && k + 1 < 128);
            assert(mix_odd(s)[k] == mix_odd(t)[k]);
            assert(mix_odd(s)[k + 1] == mix_odd(t)[k + 1]);
            assert(mix_odd(s)[k] == spec_mix_pair_a(s[k], s[k + 1]).0);
            assert(mix_odd(t)[k] == spec_mix_pair_a(t[k], t[k + 1]).0);
            assert(mix_odd(s)[k + 1] == spec_mix_pair_a(s[k], s[k + 1]).1);
            assert(mix_odd(t)[k + 1] == spec_mix_pair_a(t[k], t[k + 1]).1);
            lemma_mix_pair_a_injective(s[k], s[k + 1], t[k], t[k + 1]);
        }
    }
    assert(s =~= t);
}

proof fn lemma_mix_wrap_injective(s: Seq<Lane>, t: Seq<Lane>)
    requires
        s.len() == 128,
        t.len() == 128,
        mix_wrap(s) == mix_wrap(t),
    ensures
        s == t,
{
    assert(mix_wrap(s)[127] == mix_wrap(t)[127]);
    assert(mix_wrap(s)[0] == mix_wrap(t)[0]);
    assert(mix_wrap(s)[127] == spec_mix_pair_a(s[127], s[0]).0);
    assert(mix_wrap(t)[127] == spec_mix_pair_a(t[127], t[0]).0);
    assert(mix_wrap(s)[0] == spec_mix_pair_a(s[127], s[0]).1);
    assert(mix_wrap(t)[0] == spec_mix_pair_a(t[127], t[0]).1);
    lemma_mix_pair_a_injective(s[127], s[0], t[127], t[0]);
    assert forall|i: int| 0 <= i < 128 implies s[i] == t[i] by {
        if 0 < i < 127 {
            assert(mix_wrap(s)[i] == mix_wrap(t)[i]);
            assert(mix_wrap(s)[i] == s[i] && mix_wrap(t)[i] == t[i]);
        }
    }
    assert(s =~= t);
}

proof fn lemma_route_a_injective(s: Seq<Lane>, t: Seq<Lane>, r: int)
    requires
        s.len() == 128,
        t.len() == 128,
        route_a(s, r) == route_a(t, r),
    ensures
        s == t,
{
    assert forall|j: int| 0 <= j < 128 implies s[j] == t[j] by {
        let i = spec_sigma_a_inv(j);
        assert(0 <= i < 128 && spec_sigma_a(i) == j) by {
            lemma_sigmas_are_derangements();
        }
        let c = spec_rc_a(r, i);
        assert(route_a(s, r)[i] == route_a(t, r)[i]);
        assert(route_a(s, r)[i] == Lane { hi: s[j].hi ^ c.0, lo: s[j].lo ^ c.1 });
        assert(route_a(t, r)[i] == Lane { hi: t[j].hi ^ c.0, lo: t[j].lo ^ c.1 });
        lemma_arx64(c.0, s[j].hi, 0, 1);
        lemma_arx64(c.0, t[j].hi, 0, 1);
        lemma_arx64(c.1, s[j].lo, 0, 1);
        lemma_arx64(c.1, t[j].lo, 0, 1);
    }
    assert(s =~= t);
}

proof fn lemma_round_a_injective(s: Seq<Lane>, t: Seq<Lane>, r: int)
    requires
        s.len() == 128,
        t.len() == 128,
        round_a(s, r) == round_a(t, r),
    ensures
        s == t,
{
    let rc0 = rc_lane(spec_rc_a(r, 0));
    let s1 = sub_all(s, rc0);
    let t1 = sub_all(t, rc0);
    lemma_route_a_injective(mix_wrap(mix_odd(mix_even(s1))), mix_wrap(mix_odd(mix_even(t1))), r);
    lemma_mix_wrap_injective(mix_odd(mix_even(s1)), mix_odd(mix_even(t1)));
    lemma_mix_odd_injective(mix_even(s1), mix_even(t1));
    lemma_mix_even_injective(s1, t1);
    lemma_sub_all_injective(s, t, rc0);
}

proof fn lemma_pi_a_rounds_injective(s: Seq<Lane>, t: Seq<Lane>, n: nat)
    requires
        s.len() == 128,
        t.len() == 128,
        pi_a_rounds(s, n) == pi_a_rounds(t, n),
    ensures
        s == t,
        pi_a_rounds(s, n).len() == 128,
    decreases n,
{
    if n > 0 {
        lemma_pi_a_rounds_len(s, (n - 1) as nat);
        lemma_pi_a_rounds_len(t, (n - 1) as nat);
        lemma_round_a_injective(pi_a_rounds(s, (n - 1) as nat), pi_a_rounds(t, (n - 1) as nat), n - 1);
        lemma_pi_a_rounds_injective(s, t, (n - 1) as nat);
    }
}

proof fn lemma_pi_a_rounds_len(s: Seq<Lane>, n: nat)
    requires
        s.len() == 128,
    ensures
        pi_a_rounds(s, n).len() == 128,
    decreases n,
{
    if n > 0 {
        lemma_pi_a_rounds_len(s, (n - 1) as nat);
    }
}

/// Layer A is a permutation of the states: two states with the same image are equal.
pub proof fn lemma_pi_a_injective(s: Seq<Lane>, t: Seq<Lane>)
    requires
        s.len() == 128,
        t.len() == 128,
        spec_pi_a(s) == spec_pi_a(t),
    ensures
        s == t,
{
    lemma_pi_a_rounds_injective(s, t, 32);
}

} // verus!
