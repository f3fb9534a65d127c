//! The sponge: initialisation, absorption and squeezing over the permutation.
//!
//! The rate is lanes 0..64 (1024 bytes); a block of 1024 bytes is read as 128
//! big-endian 64-bit words, word `2j` XORed into `lanes[j].hi` and word `2j + 1`
//! into `lanes[j].lo`. Output bytes are the rate lanes written big-endian.
use crate::mds_b::{bytes_word, lane_byte};
use crate::padding;
use crate::padding::{lemma_pad_shape, spec_pad};
use crate::permute;
use crate::field_p::P;
use crate::permute::{lemma_permute_lanes_below_p, spec_permute};
use crate::state::lane_val;
use crate::state::{zero_lanes, Lane, State};
use vstd::prelude::*;

verus! {

/// The big-endian word of the eight bytes of `s` starting at `start`.
pub open spec fn be_word(s: Seq<u8>, start: int) -> u64 {
    bytes_word(s[start], s[start + 1], s[start + 2], s[start + 3], s[start + 4], s[start + 5], s[start + 6], s[start + 7])
}

/// The eight big-endian bytes of a word.
pub open spec fn be_bytes(x: u64) -> Seq<u8> {
    seq![(x >> 56u64) as u8, (x >> 48u64) as u8, (x >> 40u64) as u8, (x >> 32u64) as u8,
        (x >> 24u64) as u8, (x >> 16u64) as u8, (x >> 8u64) as u8, x as u8]
}

/// Block lane `j` (0..64): words `2j` and `2j + 1` of the block.
pub open spec fn block_lane(blk: Seq<u8>, j: int) -> Lane {
    Lane { hi: be_word(blk, 16 * j), lo: be_word(blk, 16 * j + 8) }
}

/// XOR of two lanes.
pub open spec fn lane_xor(a: Lane, b: Lane) -> Lane {
    Lane { hi: a.hi ^ b.hi, lo: a.lo ^ b.lo }
}

/// A 1024-byte block XORed into the rate lanes.
pub open spec fn xor_rate(s: Seq<Lane>, blk: Seq<u8>) -> Seq<Lane> {
    Seq::new(128, |j: int| if j < 64 { lane_xor(s[j], block_lane(blk, j)) } else { s[j] })
}

/// A 1024-byte block XORed into the rate lanes and, once more, into the capacity
/// lanes (full-state absorption).
pub open spec fn xor_full(s: Seq<Lane>, blk: Seq<u8>) -> Seq<Lane> {
    Seq::new(
        128,
        |j: int| if j < 64 { lane_xor(s[j], block_lane(blk, j)) } else { lane_xor(s[j], block_lane(blk, j - 64)) },
    )
}

/// Block `i` of a byte sequence.
pub open spec fn block(p: Seq<u8>, i: int) -> Seq<u8> {
    p.subrange(1024 * i, 1024 * i + 1024)
}

/// The state after absorbing the first `n` blocks of `p` into the rate, with a
/// permutation after each block.
pub open spec fn absorb_blocks(s: Seq<Lane>, p: Seq<u8>, n: nat) -> Seq<Lane>
    decreases n,
{
    if n == 0 {
        s
    } else {
        spec_permute(xor_rate(absorb_blocks(s, p, (n - 1) as nat), block(p, n - 1)))
    }
}

/// The state after absorbing the first `n` blocks of `p` into the full state,
/// with a permutation after each block.
pub open spec fn absorb_full_blocks(s: Seq<Lane>, p: Seq<u8>, n: nat) -> Seq<Lane>
    decreases n,
{
    if n == 0 {
        s
    } else {
        spec_permute(xor_full(absorb_full_blocks(s, p, (n - 1) as nat), block(p, n - 1)))
    }
}

/// Absorbing a message: pad it, then absorb every block into the rate.
pub open spec fn spec_absorb(s: Seq<Lane>, m: Seq<u8>, domain: u8) -> Seq<Lane> {
    absorb_blocks(s, spec_pad(m, domain), spec_pad(m, domain).len() / 1024)
}

/// Absorbing a key: pad it, then absorb every block into the full state.
pub open spec fn spec_absorb_full(s: Seq<Lane>, k: Seq<u8>, domain: u8) -> Seq<Lane> {
    absorb_full_blocks(s, spec_pad(k, domain), spec_pad(k, domain).len() / 1024)
}

/// The 1024 rate bytes of a state, lane by lane, each lane big-endian.
pub open spec fn rate_bytes(s: Seq<Lane>) -> Seq<u8> {
    Seq::new(1024, |k: int| lane_byte(s[k / 16], k % 16))
}

/// The permutation applied `k` times.
pub open spec fn perm_iter(s: Seq<Lane>, k: nat) -> Seq<Lane>
    decreases k,
{
    if k == 0 {
        s
    } else {
        spec_permute(perm_iter(s, (k - 1) as nat))
    }
}

/// The rate bytes of `s`, `P(s)`, ..., `P^(k-1)(s)`, concatenated.
pub open spec fn squeeze_out(s: Seq<Lane>, k: nat) -> Seq<u8>
    decreases k,
{
    if k == 0 {
        seq![]
    } else {
        squeeze_out(s, (k - 1) as nat) + rate_bytes(perm_iter(s, (k - 1) as nat))
    }
}

/// The number of rate blocks needed for `n` output bytes.
pub open spec fn n_blocks(n: nat) -> nat {
    if n == 0 {
        0
    } else {
        ((n - 1) / 1024 + 1) as nat
    }
}

/// The first `n` bytes squeezed from state `s`.
pub open spec fn spec_squeeze_bytes(s: Seq<Lane>, n: nat) -> Seq<u8> {
    squeeze_out(s, n_blocks(n)).take(n as int)
}

/// The state left after squeezing `n` bytes: one permutation between consecutive blocks.
pub open spec fn spec_squeeze_state(s: Seq<Lane>, n: nat) -> Seq<Lane> {
    perm_iter(s, if n == 0 { 0 } else { (n_blocks(n) - 1) as nat })
}

/// The initial value: the header lanes 64 and 65, then any extension lanes.
pub open spec fn iv_lanes(domain: u8, output_len: u64) -> Seq<Lane> {
    zero_lanes().update(
        64,
        Lane {
            hi: (128u64 << 48u64) | (128u64 << 32u64) | ((output_len & 0xFFFF) << 16u64) | ((domain as u64)
                << 8u64) | 0x01,
            lo: 0x414953452D4F4D45,
        },
    ).update(65, Lane { hi: 0x47412D4F4D454741, lo: 0x2D4F4D4547410000 })
}

/// The header word of lane 64 recovers the domain tag and the low 16 bits of the output length.
proof fn lemma_header_bits(d1: u8, l1: u64, d2: u8, l2: u64)
    by (bit_vector)
    ensures
        (128u64 << 48u64) | (128u64 << 32u64) | ((l1 & 0xFFFF) << 16u64) | ((d1 as u64) << 8u64) | 0x01
            == (128u64 << 48u64) | (128u64 << 32u64) | ((l2 & 0xFFFF) << 16u64) | ((d2 as u64) << 8u64) | 0x01
            ==> d1 == d2 && l1 & 0xFFFF == l2 & 0xFFFF,
{
}

/// Domain separation: initial values under different domain tags, or with
/// output lengths that differ in their low 16 bits, are different.
pub proof fn lemma_iv_separates(d1: u8, l1: u64, d2: u8, l2: u64)
    requires
        d1 != d2 || l1 & 0xFFFF != l2 & 0xFFFF,
    ensures
        iv_lanes(d1, l1) != iv_lanes(d2, l2),
{
    lemma_header_bits(d1, l1, d2, l2);
    if iv_lanes(d1, l1) == iv_lanes(d2, l2) {
        assert(iv_lanes(d1, l1)[64] == iv_lanes(d2, l2)[64]);
    }
}

/// The first `n` extensions applied in order; an extension names a capacity
/// lane in 66..128 and the value it takes; others are ignored.
pub open spec fn apply_exts(s: Seq<Lane>, ext: Seq<(usize, u64, u64)>, n: nat) -> Seq<Lane>
    decreases n,
{
    if n == 0 {
        s
    } else {
        let e = ext[n - 1];
        let s1 = apply_exts(s, ext, (n - 1) as nat);
        if 66 <= e.0 && e.0 < 128 {
            s1.update(e.0 as int, Lane { hi: e.1, lo: e.2 })
        } else {
            s1
        }
    }
}

/// The initialised state: the permutation of the initial value with extensions.
pub open spec fn spec_init_with_ext(domain: u8, output_len: u64, ext: Seq<(usize, u64, u64)>) -> Seq<Lane> {
    spec_permute(apply_exts(iv_lanes(domain, output_len), ext, ext.len()))
}

/// The initialised state without extensions.
pub open spec fn spec_init(domain: u8, output_len: u64) -> Seq<Lane> {
    spec_init_with_ext(domain, output_len, seq![])
}

/// A fixed-length hash: initialise with the output length, absorb, squeeze.
pub open spec fn spec_hash_domain(m: Seq<u8>, domain: u8, output_len: nat) -> Seq<u8> {
    spec_squeeze_bytes(spec_absorb(spec_init(domain, output_len as u64), m, domain), output_len)
}

/// An extendable-output hash: initialise with length 0, absorb, squeeze.
pub open spec fn spec_xof_domain(m: Seq<u8>, domain: u8, output_len: nat) -> Seq<u8> {
    spec_squeeze_bytes(spec_absorb(spec_init(domain, 0), m, domain), output_len)
}

/// `squeeze_out` gives 1024 bytes per block.
pub proof fn lemma_squeeze_out_len(s: Seq<Lane>, k: nat)
    ensures
        squeeze_out(s, k).len() == 1024 * k,
    decreases k,
{
    if k > 0 {
        lemma_squeeze_out_len(s, (k - 1) as nat);
    }
}

/// Squeezing `n` bytes gives exactly `n` bytes.
pub proof fn lemma_squeeze_len(s: Seq<Lane>, n: nat)
    ensures
        spec_squeeze_bytes(s, n).len() == n,
{
    lemma_squeeze_out_len(s, n_blocks(n));
    if n > 0 {
        assert(1024 * n_blocks(n) >= n) by (nonlinear_arith)
            requires
                n > 0,
                n_blocks(n) == (n - 1) / 1024 + 1,
        ;
    }
}

/// Squeezing more blocks only appends: the first `k1` blocks are a prefix of the first `k2`.
pub proof fn lemma_squeeze_out_prefix(s: Seq<Lane>, k1: nat, k2: nat)
    requires
        k1 <= k2,
    ensures
        squeeze_out(s, k1) == squeeze_out(s, k2).take((1024 * k1) as int),
    decreases k2,
{
    lemma_squeeze_out_len(s, k2);
    if k1 == k2 {
        assert(squeeze_out(s, k2).take((1024 * k2) as int) =~= squeeze_out(s, k2));
    } else {
        lemma_squeeze_out_prefix(s, k1, (k2 - 1) as nat);
        lemma_squeeze_out_len(s, (k2 - 1) as nat);
        assert(squeeze_out(s, k2).take((1024 * k1) as int) =~= squeeze_out(s, (k2 - 1) as nat).take((1024 * k1) as int));
    }
}

/// The `k`-fold permutation of `s` is the `(k - 1)`-fold permutation of `P(s)`.
proof fn lemma_perm_iter_shift(s: Seq<Lane>, k: nat)
    ensures
        perm_iter(s, k + 1) == perm_iter(spec_permute(s), k),
    decreases k,
{
    assert(perm_iter(s, k + 1) == spec_permute(perm_iter(s, k)));
    if k == 0 {
        assert(perm_iter(s, 0) == s);
        assert(perm_iter(spec_permute(s), 0) == spec_permute(s));
    } else {
        lemma_perm_iter_shift(s, (k - 1) as nat);
        assert(perm_iter(spec_permute(s), k) == spec_permute(perm_iter(spec_permute(s), (k - 1) as nat)));
    }
}

proof fn lemma_squeeze_out_shift(s: Seq<Lane>, k: nat)
    ensures
        squeeze_out(s, k + 1) == rate_bytes(s) + squeeze_out(spec_permute(s), k),
    decreases k,
{
    if k == 0 {
        assert(perm_iter(s, 0) == s);
        assert(squeeze_out(s, 0) == Seq::<u8>::empty());
        assert(squeeze_out(spec_permute(s), 0) == Seq::<u8>::empty());
        assert(squeeze_out(s, 1) == squeeze_out(s, 0) + rate_bytes(perm_iter(s, 0)));
        assert(squeeze_out(s, 1) =~= rate_bytes(s) + squeeze_out(spec_permute(s), 0));
    } else {
        lemma_squeeze_out_shift(s, (k - 1) as nat);
        lemma_perm_iter_shift(s, (k - 1) as nat);
        assert(squeeze_out(s, k + 1) =~= rate_bytes(s) + squeeze_out(spec_permute(s), k));
    }
}

/// Output block `k` of a squeeze from `s` is the rate of `s` permuted `k`
/// times: the first block is the rate of `s`, the second the rate of `P(s)`, and so on.
pub proof fn lemma_squeeze_block(s: Seq<Lane>, n: nat, k: nat)
    requires
        1024 * (k + 1) <= n,
    ensures
        spec_squeeze_bytes(s, n).subrange((1024 * k) as int, (1024 * k + 1024) as int) == rate_bytes(perm_iter(s, k)),
        k == 0 ==> spec_squeeze_bytes(s, n).subrange(0, 1024) == rate_bytes(s),
        k == 1 ==> spec_squeeze_bytes(s, n).subrange(1024, 2048) == rate_bytes(spec_permute(s)),
{
    let kb = n_blocks(n);
    vstd::arithmetic::div_mod::lemma_fundamental_div_mod((n - 1) as int, 1024);
    assert(k + 1 <= kb);
    lemma_squeeze_out_prefix(s, k + 1, kb);
    lemma_squeeze_out_len(s, k);
    lemma_squeeze_out_len(s, kb);
    let whole = squeeze_out(s, kb);
    assert(squeeze_out(s, k + 1) == squeeze_out(s, k) + rate_bytes(perm_iter(s, k)));
    assert(spec_squeeze_bytes(s, n).subrange((1024 * k) as int, (1024 * k + 1024) as int) =~= squeeze_out(s, k + 1).subrange((1024 * k) as int, (1024 * k + 1024) as int));
    assert(squeeze_out(s, k + 1).subrange((1024 * k) as int, (1024 * k + 1024) as int) =~= rate_bytes(perm_iter(s, k)));
    if k == 1 {
        assert(perm_iter(s, 1) == spec_permute(perm_iter(s, 0)));
    }
}

/// Squeezing 1024 more bytes from `s` and dropping the first block gives the
/// squeeze from `P(s)`: the state is permuted between output blocks.
pub proof fn lemma_squeeze_shift(s: Seq<Lane>, n: nat)
    requires
        n > 0,
    ensures
        spec_squeeze_bytes(s, n + 1024).subrange(1024, (n + 1024) as int) == spec_squeeze_bytes(spec_permute(s), n),
{
    vstd::arithmetic::div_mod::lemma_fundamental_div_mod((n - 1) as int, 1024);
    vstd::arithmetic::div_mod::lemma_fundamental_div_mod((n + 1023) as int, 1024);
    assert(n_blocks(n + 1024) == n_blocks(n) + 1);
    lemma_squeeze_out_shift(s, n_blocks(n));
    lemma_squeeze_out_len(spec_permute(s), n_blocks(n));
    lemma_squeeze_len(spec_permute(s), n);
    assert(spec_squeeze_bytes(s, n + 1024).subrange(1024, (n + 1024) as int) =~= spec_squeeze_bytes(spec_permute(s), n));
}

/// After squeezing `n > 0` bytes the state has been permuted once per output
/// block after the first: not at all for one block, once for two blocks.
pub proof fn lemma_squeeze_state_permuted(s: Seq<Lane>, n: nat)
    requires
        n > 0,
    ensures
        spec_squeeze_state(s, n) == perm_iter(s, (n_blocks(n) - 1) as nat),
        n <= 1024 ==> spec_squeeze_state(s, n) == s,
        1024 < n <= 2048 ==> spec_squeeze_state(s, n) == spec_permute(s),
{
    vstd::arithmetic::div_mod::lemma_fundamental_div_mod((n - 1) as int, 1024);
    if 1024 < n <= 2048 {
        assert(n_blocks(n) == 2);
        assert(perm_iter(s, 1) == spec_permute(perm_iter(s, 0)));
    }
}

/// Squeezing is extendable: the first `n1` bytes squeezed from a state are a
/// prefix of any longer squeeze from the same state.
pub proof fn lemma_squeeze_bytes_prefix(s: Seq<Lane>, n1: nat, n2: nat)
    requires
        n1 <= n2,
    ensures
        spec_squeeze_bytes(s, n1) == spec_squeeze_bytes(s, n2).take(n1 as int),
{
    let k1 = n_blocks(n1);
    let k2 = n_blocks(n2);
    if n1 > 0 {
        vstd::arithmetic::div_mod::lemma_div_is_ordered((n1 - 1) as int, (n2 - 1) as int, 1024);
        vstd::arithmetic::div_mod::lemma_fundamental_div_mod((n1 - 1) as int, 1024);
        assert(n1 <= 1024 * k1);
    }
    lemma_squeeze_out_prefix(s, k1, k2);
    lemma_squeeze_out_len(s, k2);
    lemma_squeeze_len(s, n2);
    lemma_squeeze_len(s, n1);
    assert(spec_squeeze_bytes(s, n1) =~= spec_squeeze_bytes(s, n2).take(n1 as int));
}

/// AISE-XOF is extendable: for the same message and domain, a shorter output
/// is a prefix of a longer one.
pub proof fn lemma_xof_prefix(m: Seq<u8>, domain: u8, n1: nat, n2: nat)
    requires
        n1 <= n2,
    ensures
        spec_xof_domain(m, domain, n1) == spec_xof_domain(m, domain, n2).take(n1 as int),
{
    lemma_squeeze_bytes_prefix(spec_absorb(spec_init(domain, 0), m, domain), n1, n2);
}

/// An extension entry that names a capacity lane the initial value can take.
pub open spec fn in_capacity(e: (usize, u64, u64)) -> bool {
    66 <= e.0 && e.0 < 128
}

/// The low 16 bits of a word.
proof fn lemma_low16(x: u64)
    by (bit_vector)
    ensures
        (x & 0xFFFF) & 0xFFFF == x & 0xFFFF,
        x & 0xFFFF == x % 65536,
{
}

/// Applying extensions depends only on the entries applied.
proof fn lemma_apply_exts_agree(s: Seq<Lane>, e1: Seq<(usize, u64, u64)>, e2: Seq<(usize, u64, u64)>, n: nat)
    requires
        n <= e1.len(),
        n <= e2.len(),
        forall|i: int| 0 <= i < n ==> e1[i] == e2[i],
    ensures
        apply_exts(s, e1, n) == apply_exts(s, e2, n),
    decreases n,
{
    if n > 0 {
        lemma_apply_exts_agree(s, e1, e2, (n - 1) as nat);
    }
}

/// Entries outside the capacity lanes 66..128 have no effect.
proof fn lemma_apply_exts_filter(s: Seq<Lane>, ext: Seq<(usize, u64, u64)>)
    ensures
        apply_exts(s, ext, ext.len()) == apply_exts(
            s,
            ext.filter(|e: (usize, u64, u64)| in_capacity(e)),
            ext.filter(|e: (usize, u64, u64)| in_capacity(e)).len(),
        ),
    decreases ext.len(),
{
    let pred = |e: (usize, u64, u64)| in_capacity(e);
    if ext.len() > 0 {
        let d = ext.drop_last();
        let fd = d.filter(pred);
        lemma_apply_exts_filter(s, d);
        lemma_apply_exts_agree(s, ext, d, d.len());
        assert(ext.filter(pred) == if pred(ext.last()) { fd.push(ext.last()) } else { fd }) by {
            reveal_with_fuel(Seq::<(usize, u64, u64)>::filter, 1);
        }
        if pred(ext.last()) {
            let f = fd.push(ext.last());
            lemma_apply_exts_agree(s, f, fd, fd.len());
        }
    }
}

/// The initial state keeps only the low 16 bits of the output length and only
/// the extension entries that name a capacity lane 66..128; a later entry for a
/// lane overrides an earlier one.
pub proof fn lemma_init_with_ext_normal_form(domain: u8, output_len: u64, ext: Seq<(usize, u64, u64)>)
    ensures
        spec_init_with_ext(domain, output_len, ext) == spec_init_with_ext(
            domain,
            output_len & 0xFFFF,
            ext.filter(|e: (usize, u64, u64)| in_capacity(e)),
        ),
{
    lemma_low16(output_len);
    assert(iv_lanes(domain, output_len) == iv_lanes(domain, output_len & 0xFFFF));
    lemma_apply_exts_filter(iv_lanes(domain, output_len), ext);
}

/// A fixed-length hash binds the output length only modulo 65536: when
/// `n <= k` agree modulo 65536, the shorter digest is a prefix of the longer,
/// and a length that is a multiple of 65536 gives the extendable output.
pub proof fn lemma_hash_prefix(m: Seq<u8>, domain: u8, n: nat, k: nat)
    requires
        n <= k,
        k <= u64::MAX,
        n % 65536 == k % 65536,
    ensures
        spec_hash_domain(m, domain, n) == spec_hash_domain(m, domain, k).take(n as int),
        n % 65536 == 0 ==> spec_hash_domain(m, domain, n) == spec_xof_domain(m, domain, n),
{
    let a = n as u64;
    let b = k as u64;
    lemma_low16(a);
    lemma_low16(b);
    lemma_low16(0);
    assert(iv_lanes(domain, a) == iv_lanes(domain, b));
    assert(spec_init(domain, a) == spec_init(domain, b));
    lemma_squeeze_bytes_prefix(spec_absorb(spec_init(domain, b), m, domain), n, k);
    if n % 65536 == 0 {
        assert(iv_lanes(domain, a) == iv_lanes(domain, 0));
        assert(spec_init(domain, a) == spec_init(domain, 0));
    }
}

/// Absorbing ends with the permutation: after absorbing any message, or any
/// key into the full state, and after initialisation, every lane lies below p.
/// The last block absorbed is the final padded block, XORed in and permuted.
pub proof fn lemma_absorb_ends_permuted(s: Seq<Lane>, m: Seq<u8>, domain: u8, output_len: u64, ext: Seq<(usize, u64, u64)>)
    ensures
        forall|j: int| 0 <= j < 128 ==> lane_val(#[trigger] spec_absorb(s, m, domain)[j]) < P,
        forall|j: int| 0 <= j < 128 ==> lane_val(#[trigger] spec_absorb_full(s, m, domain)[j]) < P,
        forall|j: int| 0 <= j < 128 ==> lane_val(#[trigger] spec_init_with_ext(domain, output_len, ext)[j]) < P,
        spec_absorb(s, m, domain) == spec_permute(
            xor_rate(
                absorb_blocks(s, spec_pad(m, domain), (spec_pad(m, domain).len() / 1024 - 1) as nat),
                spec_pad(m, domain).subrange(spec_pad(m, domain).len() - 1024, spec_pad(m, domain).len() as int),
            ),
        ),
{
    lemma_pad_shape(m, domain);
    let p = spec_pad(m, domain);
    let n = p.len() / 1024;
    assert(n >= 1);
    lemma_permute_lanes_below_p(xor_rate(absorb_blocks(s, p, (n - 1) as nat), block(p, n - 1)));
    lemma_permute_lanes_below_p(xor_full(absorb_full_blocks(s, p, (n - 1) as nat), block(p, n - 1)));
    lemma_permute_lanes_below_p(apply_exts(iv_lanes(domain, output_len), ext, ext.len()));
    assert(1024 * (n - 1) == p.len() - 1024);
}

/// The big-endian word at `start`.
fn load_be_u64(buf: &[u8], start: usize) -> (r: u64)
    requires
        start + 8 <= buf@.len(),
    ensures
        r == be_word(buf@, start as int),
{
    ((buf[start] as u64) << 56u64) | ((buf[start + 1] as u64) << 48u64) | ((buf[start + 2] as u64)
        << 40u64) | ((buf[start + 3] as u64) << 32u64) | ((buf[start + 4] as u64) << 24u64) | ((
    buf[start + 5] as u64) << 16u64) | ((buf[start + 6] as u64) << 8u64) | (buf[start + 7] as u64)
}

/// Appends the eight big-endian bytes of a word.
fn push_be_u64(out: &mut Vec<u8>, x: u64)
    ensures
        final(out)@ == old(out)@ + be_bytes(x),
{
    out.push((x >> 56u64) as u8);
    out.push((x >> 48u64) as u8);
    out.push((x >> 40u64) as u8);
    out.push((x >> 32u64) as u8);
    out.push((x >> 24u64) as u8);
    out.push((x >> 16u64) as u8);
    out.push((x >> 8u64) as u8);
    out.push(x as u8);
    assert(out@ =~= old(out)@ + be_bytes(x));
}

/// The bytes of a lane in the output order.
proof fn lemma_lane_bytes(l: Lane)
    ensures
        be_bytes(l.hi) + be_bytes(l.lo) =~= Seq::new(16, |k: int| lane_byte(l, k)),
{
    let h = l.hi;
    assert((h >> 0u64) as u8 == h as u8) by (bit_vector);
    let o = l.lo;
    assert((o >> 0u64) as u8 == o as u8) by (bit_vector);
}

/// XORs the block of `buf` at `offset` into the rate lanes.
pub(crate) fn xor_block_rate(s: &mut State, buf: &[u8], offset: usize)
    requires
        offset + 1024 <= buf@.len(),
    ensures
        final(s).lanes@ == xor_rate(old(s).lanes@, buf@.subrange(offset as int, offset + 1024)),
{
    let ghost s0 = s.lanes@;
    let ghost blk = buf@.subrange(offset as int, offset + 1024);
    let n = buf.len();
    let mut j: usize = 0;
    while j < 64
        invariant
            j <= 64,
            n == buf@.len(),
            offset + 1024 <= buf@.len(),
            blk == buf@.subrange(offset as int, offset + 1024),
            s.lanes@.len() == 128,
            forall|k: int| 0 <= k < j ==> s.lanes@[k] == lane_xor(s0[k], block_lane(blk, k)),
            forall|k: int| j <= k < 128 ==> s.lanes@[k] == s0[k],
        decreases 64 - j,
    {
        let start = offset + j * 16;
        let hi_val = load_be_u64(buf, start);
        let lo_val = load_be_u64(buf, start + 8);
        assert(hi_val == be_word(blk, 16 * j as int));
        assert(lo_val == be_word(blk, 16 * j as int + 8));
        let l = s.lanes[j];
        s.lanes[j] = Lane::new(l.hi ^ hi_val, l.lo ^ lo_val);
        j = j + 1;
    }
    assert(s.lanes@ =~= xor_rate(s0, blk));
}

/// XORs the block of `buf` at `offset` into the rate lanes and into the capacity lanes.
pub fn xor_block_full(s: &mut State, buf: &[u8], offset: usize)
    requires
        offset + 1024 <= buf@.len(),
    ensures
        final(s).lanes@ == xor_full(old(s).lanes@, buf@.subrange(offset as int, offset + 1024)),
{
    let ghost s0 = s.lanes@;
    let ghost blk = buf@.subrange(offset as int, offset + 1024);
    let n = buf.len();
    let mut j: usize = 0;
    while j < 64
        invariant
            j <= 64,
            n == buf@.len(),
            offset + 1024 <= buf@.len(),
            blk == buf@.subrange(offset as int, offset + 1024),
            s.lanes@.len() == 128,
            forall|k: int| 0 <= k < j ==> s.lanes@[k] == lane_xor(s0[k], block_lane(blk, k)),
            forall|k: int| 64 <= k < 64 + j ==> s.lanes@[k] == lane_xor(s0[k], block_lane(blk, k - 64)),
            forall|k: int| j <= k < 64 ==> s.lanes@[k] == s0[k],
            forall|k: int| 64 + j <= k < 128 ==> s.lanes@[k] == s0[k],
        decreases 64 - j,
    {
        let start = offset + j * 16;
        let hi_val = load_be_u64(buf, start);
        let lo_val = load_be_u64(buf, start + 8);
        assert(hi_val == be_word(blk, 16 * j as int));
        assert(lo_val == be_word(blk, 16 * j as int + 8));
        let l = s.lanes[j];
        s.lanes[j] = Lane::new(l.hi ^ hi_val, l.lo ^ lo_val);
        let c = s.lanes[64 + j];
        s.lanes[64 + j] = Lane::new(c.hi ^ hi_val, c.lo ^ lo_val);
        j = j + 1;
    }
    assert(s.lanes@ =~= xor_full(s0, blk));
}

/// Pads `k` and absorbs it into the full state, block by block.
pub fn absorb_full(s: &mut State, k: &[u8], domain: u8)
    requires
        k@.len() + 2048 <= usize::MAX,
    ensures
        final(s).lanes@ == spec_absorb_full(old(s).lanes@, k@, domain),
{
    let padded = padding::pad(k, domain);
    proof {
        lemma_pad_shape(k@, domain);
    }
    let plen = padded.len();
    let nblocks = plen / 1024;
    let ghost s0 = s.lanes@;
    let mut b: usize = 0;
    while b < nblocks
        invariant
            b <= nblocks,
            nblocks == padded@.len() / 1024,
            plen == padded@.len(),
            padded@.len() % 1024 == 0,
            padded@ == spec_pad(k@, domain),
            s.lanes@ == absorb_full_blocks(s0, padded@, b as nat),
        decreases nblocks - b,
    {
        xor_block_full(s, padded.as_slice(), b * 1024);
        permute::permute(s);
        b = b + 1;
    }
}

/// Builds the initial state with the given extension lanes and permutes it.
pub fn init_with_ext(domain: u8, output_len: u64, extensions: &[(usize, u64, u64)]) -> (s: State)
    ensures
        s.lanes@ == spec_init_with_ext(domain, output_len, extensions@),
{
    let mut s = State::new();
    s.lanes[64] = Lane::new(
        (128u64 << 48u64) | (128u64 << 32u64) | ((output_len & 0xFFFF) << 16u64) | ((domain as u64) << 8u64)
            | 0x01,
        0x414953452D4F4D45,
    );
    s.lanes[65] = Lane::new(0x47412D4F4D454741, 0x2D4F4D4547410000);
    assert(s.lanes@ =~= iv_lanes(domain, output_len));
    let mut i: usize = 0;
    while i < extensions.len()
        invariant
            i <= extensions@.len(),
            s.lanes@ == apply_exts(iv_lanes(domain, output_len), extensions@, i as nat),
        decreases extensions@.len() - i,
    {
        let (idx, hi, lo) = extensions[i];
        if idx >= 66 && idx < 128 {
            s.lanes[idx] = Lane::new(hi, lo);
        }
        i = i + 1;
    }
    permute::permute(&mut s);
    s
}

/// The initial state without extensions.
pub fn init(domain: u8, output_len: u64) -> (s: State)
    ensures
        s.lanes@ == spec_init(domain, output_len),
{
    let ext: [(usize, u64, u64); 0] = [];
    let s = init_with_ext(domain, output_len, &ext);
    assert(ext@ =~= seq![]);
    s
}

/// Pads `m` under `domain` and absorbs it into the rate, block by block.
pub fn absorb(s: &mut State, m: &[u8], domain: u8)
    requires
        m@.len() + 2048 <= usize::MAX,
    ensures
        final(s).lanes@ == spec_absorb(old(s).lanes@, m@, domain),
{
    let padded = padding::pad(m, domain);
    proof {
        lemma_pad_shape(m@, domain);
    }
    let plen = padded.len();
    let nblocks = plen / 1024;
    let ghost s0 = s.lanes@;
    let mut b: usize = 0;
    while b < nblocks
        invariant
            b <= nblocks,
            nblocks == padded@.len() / 1024,
            plen == padded@.len(),
            padded@.len() % 1024 == 0,
            padded@ == spec_pad(m@, domain),
            s.lanes@ == absorb_blocks(s0, padded@, b as nat),
        decreases nblocks - b,
    {
        xor_block_rate(s, padded.as_slice(), b * 1024);
        permute::permute(s);
        b = b + 1;
    }
}

/// Appends the 1024 rate bytes of the state.
pub(crate) fn append_rate(out: &mut Vec<u8>, s: &State)
    ensures
        final(out)@ == old(out)@ + rate_bytes(s.lanes@),
{
    let ghost o0 = out@;
    let mut j: usize = 0;
    while j < 64
        invariant
            j <= 64,
            s.lanes@.len() == 128,
            out@ =~= o0 + rate_bytes(s.lanes@).take(16 * j as int),
        decreases 64 - j,
    {
        let l = s.lanes[j];
        push_be_u64(out, l.hi);
        push_be_u64(out, l.lo);
        proof {
            lemma_lane_bytes(l);
            assert(rate_bytes(s.lanes@).take(16 * (j + 1) as int) =~= rate_bytes(s.lanes@).take(16 * j as int)
                + Seq::new(16, |k: int| lane_byte(l, k)));
        }
        j = j + 1;
    }
    assert(rate_bytes(s.lanes@).take(1024) =~= rate_bytes(s.lanes@));
}

/// Squeezes `output_len` bytes, permuting between consecutive 1024-byte blocks.
pub fn squeeze(s: &mut State, output_len: usize) -> (out: Vec<u8>)
    ensures
        out@ == spec_squeeze_bytes(old(s).lanes@, output_len as nat),
        final(s).lanes@ == spec_squeeze_state(old(s).lanes@, output_len as nat),
        out@.len() == output_len,
{
    let ghost s0 = s.lanes@;
    let ghost kb = n_blocks(output_len as nat);
    let mut out: Vec<u8> = Vec::with_capacity(output_len);
    let ghost mut t: nat = 0;
    while out.len() < output_len
        invariant_except_break
            out@ == squeeze_out(s0, t),
            out@.len() == 1024 * t,
            s.lanes@ == perm_iter(s0, t),
            t == 0 || out@.len() < output_len,
            kb == n_blocks(output_len as nat),
        ensures
            out@ == squeeze_out(s0, kb),
            s.lanes@ == spec_squeeze_state(s0, output_len as nat),
        decreases output_len - out@.len(),
    {
        append_rate(&mut out, s);
        proof {
            t = t + 1;
            lemma_squeeze_out_len(s0, t);
        }
        if out.len() >= output_len {
            proof {
                let q = (output_len - 1) / 1024;
                vstd::arithmetic::div_mod::lemma_fundamental_div_mod(output_len - 1, 1024);
                assert(output_len - 1 == 1024 * q + (output_len - 1) % 1024);
                assert(t == q + 1);
            }
            break;
        }
        permute::permute(s);
    }
    proof {
        lemma_squeeze_out_len(s0, kb);
        lemma_squeeze_len(s0, output_len as nat);
    }
    out.truncate(output_len);
    out
}

/// A fixed-length hash under a domain tag.
pub fn aise_hash_domain(m: &[u8], domain: u8, output_len: usize) -> (out: Vec<u8>)
    requires
        m@.len() + 2048 <= usize::MAX,
    ensures
        out@ == spec_hash_domain(m@, domain, output_len as nat),
        out@.len() == output_len,
{
    let mut s = init(domain, output_len as u64);
    absorb(&mut s, m, domain);
    squeeze(&mut s, output_len)
}

/// An extendable-output hash under a domain tag.
pub fn aise_xof_domain(m: &[u8], domain: u8, output_len: usize) -> (out: Vec<u8>)
    requires
        m@.len() + 2048 <= usize::MAX,
    ensures
        out@ == spec_xof_domain(m@, domain, output_len as nat),
        out@.len() == output_len,
{
    let mut s = init(domain, 0);
    absorb(&mut s, m, domain);
    squeeze(&mut s, output_len)
}

/// AISE-HASH: domain 0x00.
pub fn aise_hash(m: &[u8], output_len: usize) -> (out: Vec<u8>)
    requires
        m@.len() + 2048 <= usize::MAX,
    ensures
        out@ == spec_hash_domain(m@, 0x00, output_len as nat),
        out@.len() == output_len,
{
    aise_hash_domain(m, 0x00, output_len)
}

/// AISE-XOF: domain 0x01.
pub fn aise_xof(m: &[u8], output_len: usize) -> (out: Vec<u8>)
    requires
        m@.len() + 2048 <= usize::MAX,
    ensures
        out@ == spec_xof_domain(m@, 0x01, output_len as nat),
        out@.len() == output_len,
{
    aise_xof_domain(m, 0x01, output_len)
}

} // verus!
