//! MixLanes_B: column mixing over GF(2^8) and row mixing over GF(2^16).
//!
//! The state is a 16 x 8 grid of lanes (lane `row * 8 + col`). Column mixing
//! multiplies, for each column and each of the 16 byte positions of a lane, the
//! vector of that byte across the 16 rows by `M_COL`. Row mixing multiplies, for
//! each row and each of the 8 16-bit chunk positions, the vector of that chunk
//! across the 8 columns by `M_ROW`. Bytes and chunks are numbered from the most
//! significant end of the lane.
use crate::constants::{M_COL, M_ROW};
use crate::field16;
use crate::field16::gf16_mul;
use crate::field8;
use crate::field8::gf8_mul;
use crate::field16::lemma_gf16_mul_linear_right;
use crate::field8::lemma_gf8_mul_linear_right;
use crate::sponge::lane_xor;
use crate::state::Lane;
use vstd::prelude::*;

verus! {

/// Byte `b` (0..16, most significant first) of a lane.
pub open spec fn lane_byte(l: Lane, b: int) -> u8 {
    if b < 8 {
        (l.hi >> ((7 - b) * 8) as u64) as u8
    } else {
        (l.lo >> ((15 - b) * 8) as u64) as u8
    }
}

/// The eight bytes of a 64-bit word, most significant first, as a word.
pub open spec fn bytes_word(b0: u8, b1: u8, b2: u8, b3: u8, b4: u8, b5: u8, b6: u8, b7: u8) -> u64 {
    ((b0 as u64) << 56u64) | ((b1 as u64) << 48u64) | ((b2 as u64) << 40u64) | ((b3 as u64)
        << 32u64) | ((b4 as u64) << 24u64) | ((b5 as u64) << 16u64) | ((b6 as u64) << 8u64) | (b7 as u64)
}

/// The lane whose byte `b` is `f(b)`.
pub open spec fn bytes_lane(f: spec_fn(int) -> u8) -> Lane {
    Lane {
        hi: bytes_word(f(0), f(1), f(2), f(3), f(4), f(5), f(6), f(7)),
        lo: bytes_word(f(8), f(9), f(10), f(11), f(12), f(13), f(14), f(15)),
    }
}

/// 16-bit chunk `c` (0..8, most significant first) of a lane.
pub open spec fn lane_chunk(l: Lane, c: int) -> u16 {
    if c < 4 {
        (l.hi >> ((3 - c) * 16) as u64) as u16
    } else {
        (l.lo >> ((7 - c) * 16) as u64) as u16
    }
}

/// The four chunks of a 64-bit word, most significant first, as a word.
pub open spec fn chunks_word(c0: u16, c1: u16, c2: u16, c3: u16) -> u64 {
    ((c0 as u64) << 48u64) | ((c1 as u64) << 32u64) | ((c2 as u64) << 16u64) | (c3 as u64)
}

/// The lane whose chunk `c` is `f(c)`.
pub open spec fn chunks_lane(f: spec_fn(int) -> u16) -> Lane {
    Lane { hi: chunks_word(f(0), f(1), f(2), f(3)), lo: chunks_word(f(4), f(5), f(6), f(7)) }
}

/// XOR of `f(0), ..., f(n - 1)`.
pub open spec fn xor_sum8(f: spec_fn(int) -> u8, n: int) -> u8
    decreases n,
{
    if n <= 0 {
        0
    } else {
        xor_sum8(f, n - 1) ^ f(n - 1)
    }
}

/// XOR of `f(0), ..., f(n - 1)`.
pub open spec fn xor_sum16(f: spec_fn(int) -> u16, n: int) -> u16
    decreases n,
{
    if n <= 0 {
        0
    } else {
        xor_sum16(f, n - 1) ^ f(n - 1)
    }
}

/// The 16 lanes of column `col`, top row first.
pub open spec fn column(s: Seq<Lane>, col: int) -> Seq<Lane> {
    Seq::new(16, |j: int| s[j * 8 + col])
}

/// The 8 lanes of row `row`, left column first.
pub open spec fn row_of(s: Seq<Lane>, row: int) -> Seq<Lane> {
    Seq::new(8, |j: int| s[row * 8 + j])
}

/// Byte `b` of entry `i` of `M_COL` times the column `v` (bytewise).
pub open spec fn col_byte(v: Seq<Lane>, i: int, b: int) -> u8 {
    xor_sum8(|j: int| gf8_mul(M_COL[i][j], lane_byte(v[j], b)), 16)
}

/// Chunk `c` of entry `i` of `M_ROW` times the row `v` (chunkwise).
pub open spec fn row_chunk(v: Seq<Lane>, i: int, c: int) -> u16 {
    xor_sum16(|j: int| gf16_mul(M_ROW[i][j], lane_chunk(v[j], c)), 8)
}

/// The mixed column: entry `i` of `M_COL` times the column `v`, byte position by byte position.
pub open spec fn mixed_column(v: Seq<Lane>, i: int) -> Lane {
    bytes_lane(|b: int| col_byte(v, i, b))
}

/// The mixed row: entry `i` of `M_ROW` times the row `v`, chunk position by chunk position.
pub open spec fn mixed_row(v: Seq<Lane>, i: int) -> Lane {
    chunks_lane(|c: int| row_chunk(v, i, c))
}

/// Column mixing of the whole state.
pub open spec fn spec_mix_cols(s: Seq<Lane>) -> Seq<Lane> {
    Seq::new(128, |k: int| mixed_column(column(s, k % 8), k / 8))
}

/// Row mixing of the whole state.
pub open spec fn spec_mix_rows(s: Seq<Lane>) -> Seq<Lane> {
    Seq::new(128, |k: int| mixed_row(row_of(s, k / 8), k % 8))
}

/// MixLanes_B: column mixing, then row mixing.
pub open spec fn spec_mix_lanes_b(s: Seq<Lane>) -> Seq<Lane> {
    spec_mix_rows(spec_mix_cols(s))
}

/// Lane-by-lane XOR of two states.
pub open spec fn lanes_xor(x: Seq<Lane>, y: Seq<Lane>) -> Seq<Lane> {
    Seq::new(128, |i: int| lane_xor(x[i], y[i]))
}

/// Bytes and chunks of an XOR are the XORs of the bytes and chunks.
proof fn lemma_part_xor(h1: u64, h2: u64, s: u64)
    by (bit_vector)
    ensures
        ((h1 ^ h2) >> s) as u8 == ((h1 >> s) as u8) ^ ((h2 >> s) as u8),
        ((h1 ^ h2) >> s) as u16 == ((h1 >> s) as u16) ^ ((h2 >> s) as u16),
{
}

/// Assembling a word from XORed bytes XORs the assembled words.
proof fn lemma_bytes_word_xor(a: Seq<u8>, b: Seq<u8>)
    requires
        a.len() == 8,
        b.len() == 8,
    ensures
        bytes_word(a[0] ^ b[0], a[1] ^ b[1], a[2] ^ b[2], a[3] ^ b[3], a[4] ^ b[4], a[5] ^ b[5], a[6] ^ b[6], a[7] ^ b[7])
            == bytes_word(a[0], a[1], a[2], a[3], a[4], a[5], a[6], a[7]) ^ bytes_word(b[0], b[1], b[2], b[3], b[4], b[5], b[6], b[7]),
{
    lemma_bytes_word_xor_bits(a[0], a[1], a[2], a[3], a[4], a[5], a[6], a[7], b[0], b[1], b[2], b[3], b[4], b[5], b[6], b[7]);
}

proof fn lemma_bytes_word_xor_bits(
    a0: u8, a1: u8, a2: u8, a3: u8, a4: u8, a5: u8, a6: u8, a7: u8,
    b0: u8, b1: u8, b2: u8, b3: u8, b4: u8, b5: u8, b6: u8, b7: u8,
)
    by (bit_vector)
    ensures
        bytes_word(a0 ^ b0, a1 ^ b1, a2 ^ b2, a3 ^ b3, a4 ^ b4, a5 ^ b5, a6 ^ b6, a7 ^ b7)
            == bytes_word(a0, a1, a2, a3, a4, a5, a6, a7) ^ bytes_word(b0, b1, b2, b3, b4, b5, b6, b7),
{
}

/// Assembling a word from XORed chunks XORs the assembled words.
proof fn lemma_chunks_word_xor(a0: u16, a1: u16, a2: u16, a3: u16, b0: u16, b1: u16, b2: u16, b3: u16)
    by (bit_vector)
    ensures
        chunks_word(a0 ^ b0, a1 ^ b1, a2 ^ b2, a3 ^ b3) == chunks_word(a0, a1, a2, a3) ^ chunks_word(b0, b1, b2, b3),
{
}

/// XOR algebra on bytes and chunks.
proof fn lemma_xor4(a: u8, b: u8, c: u8, d: u8, e: u16, f: u16, g: u16, h: u16)
    by (bit_vector)
    ensures
        (a ^ b) ^ (c ^ d) == (a ^ c) ^ (b ^ d),
        0u8 ^ 0u8 == 0u8,
        (e ^ f) ^ (g ^ h) == (e ^ g) ^ (f ^ h),
        0u16 ^ 0u16 == 0u16,
{
}

proof fn lemma_lane_byte_xor(x: Lane, y: Lane, b: int)
    requires
        0 <= b < 16,
    ensures
        lane_byte(lane_xor(x, y), b) == lane_byte(x, b) ^ lane_byte(y, b),
{
    if b < 8 {
        lemma_part_xor(x.hi, y.hi, ((7 - b) * 8) as u64);
    } else {
        lemma_part_xor(x.lo, y.lo, ((15 - b) * 8) as u64);
    }
}

proof fn lemma_lane_chunk_xor(x: Lane, y: Lane, c: int)
    requires
        0 <= c < 8,
    ensures
        lane_chunk(lane_xor(x, y), c) == lane_chunk(x, c) ^ lane_chunk(y, c),
{
    if c < 4 {
        lemma_part_xor(x.hi, y.hi, ((3 - c) * 16) as u64);
    } else {
        lemma_part_xor(x.lo, y.lo, ((7 - c) * 16) as u64);
    }
}

proof fn lemma_xor_sum8_linear(f: spec_fn(int) -> u8, g: spec_fn(int) -> u8, h: spec_fn(int) -> u8, n: int)
    requires
        forall|j: int| 0 <= j < n ==> #[trigger] h(j) == f(j) ^ g(j),
    ensures
        xor_sum8(h, n) == xor_sum8(f, n) ^ xor_sum8(g, n),
    decreases n,
{
    lemma_xor4(0, 0, 0, 0, 0, 0, 0, 0);
    if n > 0 {
        lemma_xor_sum8_linear(f, g, h, n - 1);
        lemma_xor4(xor_sum8(f, n - 1), xor_sum8(g, n - 1), f(n - 1), g(n - 1), 0, 0, 0, 0);
    }
}

proof fn lemma_xor_sum16_linear(f: spec_fn(int) -> u16, g: spec_fn(int) -> u16, h: spec_fn(int) -> u16, n: int)
    requires
        forall|j: int| 0 <= j < n ==> #[trigger] h(j) == f(j) ^ g(j),
    ensures
        xor_sum16(h, n) == xor_sum16(f, n) ^ xor_sum16(g, n),
    decreases n,
{
    lemma_xor4(0, 0, 0, 0, 0, 0, 0, 0);
    if n > 0 {
        lemma_xor_sum16_linear(f, g, h, n - 1);
        lemma_xor4(0, 0, 0, 0, xor_sum16(f, n - 1), xor_sum16(g, n - 1), f(n - 1), g(n - 1));
    }
}

proof fn lemma_bytes_lane_xor(f: spec_fn(int) -> u8, g: spec_fn(int) -> u8, h: spec_fn(int) -> u8)
    requires
        forall|b: int| 0 <= b < 16 ==> #[trigger] h(b) == f(b) ^ g(b),
    ensures
        bytes_lane(h) == lane_xor(bytes_lane(f), bytes_lane(g)),
{
    let fa = Seq::new(16, |b: int| f(b));
    let ga = Seq::new(16, |b: int| g(b));
    assert(h(0) == f(0) ^ g(0) && h(1) == f(1) ^ g(1) && h(2) == f(2) ^ g(2) && h(3) == f(3) ^ g(3));
    assert(h(4) == f(4) ^ g(4) && h(5) == f(5) ^ g(5) && h(6) == f(6) ^ g(6) && h(7) == f(7) ^ g(7));
    assert(h(8) == f(8) ^ g(8) && h(9) == f(9) ^ g(9) && h(10) == f(10) ^ g(10) && h(11) == f(11) ^ g(11));
    assert(h(12) == f(12) ^ g(12) && h(13) == f(13) ^ g(13) && h(14) == f(14) ^ g(14) && h(15) == f(15) ^ g(15));
    lemma_bytes_word_xor(fa.subrange(0, 8), ga.subrange(0, 8));
    lemma_bytes_word_xor(fa.subrange(8, 16), ga.subrange(8, 16));
}

proof fn lemma_chunks_lane_xor(f: spec_fn(int) -> u16, g: spec_fn(int) -> u16, h: spec_fn(int) -> u16)
    requires
        forall|c: int| 0 <= c < 8 ==> #[trigger] h(c) == f(c) ^ g(c),
    ensures
        chunks_lane(h) == lane_xor(chunks_lane(f), chunks_lane(g)),
{
    assert(h(0) == f(0) ^ g(0) && h(1) == f(1) ^ g(1) && h(2) == f(2) ^ g(2) && h(3) == f(3) ^ g(3));
    assert(h(4) == f(4) ^ g(4) && h(5) == f(5) ^ g(5) && h(6) == f(6) ^ g(6) && h(7) == f(7) ^ g(7));
    lemma_chunks_word_xor(f(0), f(1), f(2), f(3), g(0), g(1), g(2), g(3));
    lemma_chunks_word_xor(f(4), f(5), f(6), f(7), g(4), g(5), g(6), g(7));
}

proof fn lemma_mix_cols_linear(x: Seq<Lane>, y: Seq<Lane>)
    requires
        x.len() == 128,
        y.len() == 128,
    ensures
        spec_mix_cols(lanes_xor(x, y)) == lanes_xor(spec_mix_cols(x), spec_mix_cols(y)),
{
    let z = lanes_xor(x, y);
    assert forall|k: int| 0 <= k < 128 implies spec_mix_cols(z)[k] == lane_xor(
        spec_mix_cols(x)[k],
        spec_mix_cols(y)[k],
    ) by {
        let col = k % 8;
        let i = k / 8;
        let (cz, cx, cy) = (column(z, col), column(x, col), column(y, col));
        assert forall|b: int| 0 <= b < 16 implies #[trigger] col_byte(cz, i, b) == col_byte(cx, i, b) ^ col_byte(
            cy,
            i,
            b,
        ) by {
            let f = |j: int| gf8_mul(M_COL[i][j], lane_byte(cx[j], b));
            let g = |j: int| gf8_mul(M_COL[i][j], lane_byte(cy[j], b));
            let h = |j: int| gf8_mul(M_COL[i][j], lane_byte(cz[j], b));
            assert forall|j: int| 0 <= j < 16 implies #[trigger] h(j) == f(j) ^ g(j) by {
                assert(cz[j] == lane_xor(cx[j], cy[j]));
                lemma_lane_byte_xor(cx[j], cy[j], b);
                lemma_gf8_mul_linear_right(M_COL[i][j], lane_byte(cx[j], b), lane_byte(cy[j], b));
            }
            lemma_xor_sum8_linear(f, g, h, 16);
        }
        lemma_bytes_lane_xor(|b: int| col_byte(cx, i, b), |b: int| col_byte(cy, i, b), |b: int| col_byte(cz, i, b));
    }
    assert(spec_mix_cols(z) =~= lanes_xor(spec_mix_cols(x), spec_mix_cols(y)));
}

proof fn lemma_mix_rows_linear(x: Seq<Lane>, y: Seq<Lane>)
    requires
        x.len() == 128,
        y.len() == 128,
    ensures
        spec_mix_rows(lanes_xor(x, y)) == lanes_xor(spec_mix_rows(x), spec_mix_rows(y)),
{
    let z = lanes_xor(x, y);
    assert forall|k: int| 0 <= k < 128 implies spec_mix_rows(z)[k] == lane_xor(
        spec_mix_rows(x)[k],
        spec_mix_rows(y)[k],
    ) by {
        let row = k / 8;
        let i = k % 8;
        let (rz, rx, ry) = (row_of(z, row), row_of(x, row), row_of(y, row));
        assert forall|c: int| 0 <= c < 8 implies #[trigger] row_chunk(rz, i, c) == row_chunk(rx, i, c) ^ row_chunk(
            ry,
            i,
            c,
        ) by {
            let f = |j: int| gf16_mul(M_ROW[i][j], lane_chunk(rx[j], c));
            let g = |j: int| gf16_mul(M_ROW[i][j], lane_chunk(ry[j], c));
            let h = |j: int| gf16_mul(M_ROW[i][j], lane_chunk(rz[j], c));
            assert forall|j: int| 0 <= j < 8 implies #[trigger] h(j) == f(j) ^ g(j) by {
                assert(rz[j] == lane_xor(rx[j], ry[j]));
                lemma_lane_chunk_xor(rx[j], ry[j], c);
                lemma_gf16_mul_linear_right(M_ROW[i][j], lane_chunk(rx[j], c), lane_chunk(ry[j], c));
            }
            lemma_xor_sum16_linear(f, g, h, 8);
        }
        lemma_chunks_lane_xor(|c: int| row_chunk(rx, i, c), |c: int| row_chunk(ry, i, c), |c: int| row_chunk(rz, i, c));
    }
    assert(spec_mix_rows(z) =~= lanes_xor(spec_mix_rows(x), spec_mix_rows(y)));
}

/// MixLanes_B is linear over GF(2): mixing the lane-by-lane XOR of two states
/// gives the XOR of the two mixed states.
pub proof fn lemma_mix_lanes_b_linear(x: Seq<Lane>, y: Seq<Lane>)
    requires
        x.len() == 128,
        y.len() == 128,
    ensures
        spec_mix_lanes_b(lanes_xor(x, y)) == lanes_xor(spec_mix_lanes_b(x), spec_mix_lanes_b(y)),
{
    lemma_mix_cols_linear(x, y);
    lemma_mix_rows_linear(spec_mix_cols(x), spec_mix_cols(y));
}

/// Setting a zero byte of a word by OR leaves the other bytes alone.
proof fn lemma_or_byte(x: u64, v: u8, s: u64, t: u64)
    requires
        s % 8 == 0,
        s <= 56,
        t % 8 == 0,
        t <= 56,
    ensures
        (x >> s) as u8 == 0 ==> ((x | ((v as u64) << s)) >> s) as u8 == v,
        t != s ==> ((x | ((v as u64) << s)) >> t) as u8 == (x >> t) as u8,
{
    assert((x >> s) as u8 == 0 ==> ((x | ((v as u64) << s)) >> s) as u8 == v) by (bit_vector)
        requires
            s % 8 == 0,
            s <= 56,
    ;
    assert(t != s ==> ((x | ((v as u64) << s)) >> t) as u8 == (x >> t) as u8) by (bit_vector)
        requires
            s % 8 == 0,
            s <= 56,
            t % 8 == 0,
            t <= 56,
    ;
}

/// Setting a zero chunk of a word by OR leaves the other chunks alone.
proof fn lemma_or_chunk(x: u64, v: u16, s: u64, t: u64)
    requires
        s % 16 == 0,
        s <= 48,
        t % 16 == 0,
        t <= 48,
    ensures
        (x >> s) as u16 == 0 ==> ((x | ((v as u64) << s)) >> s) as u16 == v,
        t != s ==> ((x | ((v as u64) << s)) >> t) as u16 == (x >> t) as u16,
{
    assert((x >> s) as u16 == 0 ==> ((x | ((v as u64) << s)) >> s) as u16 == v) by (bit_vector)
        requires
            s % 16 == 0,
            s <= 48,
    ;
    assert(t != s ==> ((x | ((v as u64) << s)) >> t) as u16 == (x >> t) as u16) by (bit_vector)
        requires
            s % 16 == 0,
            s <= 48,
            t % 16 == 0,
            t <= 48,
    ;
}

/// A lane is determined by its 16 bytes.
proof fn lemma_bytes_determine_lane(l: Lane, f: spec_fn(int) -> u8)
    requires
        forall|b: int| 0 <= b < 16 ==> #[trigger] lane_byte(l, b) == f(b),
    ensures
        l == bytes_lane(f),
{
    let h = l.hi;
    let o = l.lo;
    assert(lane_byte(l, 0) == f(0) && lane_byte(l, 1) == f(1) && lane_byte(l, 2) == f(2) && lane_byte(l, 3) == f(3));
    assert(lane_byte(l, 4) == f(4) && lane_byte(l, 5) == f(5) && lane_byte(l, 6) == f(6) && lane_byte(l, 7) == f(7));
    assert(lane_byte(l, 8) == f(8) && lane_byte(l, 9) == f(9) && lane_byte(l, 10) == f(10) && lane_byte(l, 11) == f(11));
    assert(lane_byte(l, 12) == f(12) && lane_byte(l, 13) == f(13) && lane_byte(l, 14) == f(14) && lane_byte(l, 15) == f(15));
    assert(h == bytes_word((h >> 56u64) as u8, (h >> 48u64) as u8, (h >> 40u64) as u8, (h >> 32u64) as u8,
        (h >> 24u64) as u8, (h >> 16u64) as u8, (h >> 8u64) as u8, (h >> 0u64) as u8)) by (bit_vector);
    assert(o == bytes_word((o >> 56u64) as u8, (o >> 48u64) as u8, (o >> 40u64) as u8, (o >> 32u64) as u8,
        (o >> 24u64) as u8, (o >> 16u64) as u8, (o >> 8u64) as u8, (o >> 0u64) as u8)) by (bit_vector);
}

/// A lane is determined by its 8 chunks.
proof fn lemma_chunks_determine_lane(l: Lane, f: spec_fn(int) -> u16)
    requires
        forall|c: int| 0 <= c < 8 ==> #[trigger] lane_chunk(l, c) == f(c),
    ensures
        l == chunks_lane(f),
{
    let h = l.hi;
    let o = l.lo;
    assert(lane_chunk(l, 0) == f(0) && lane_chunk(l, 1) == f(1) && lane_chunk(l, 2) == f(2) && lane_chunk(l, 3) == f(3));
    assert(lane_chunk(l, 4) == f(4) && lane_chunk(l, 5) == f(5) && lane_chunk(l, 6) == f(6) && lane_chunk(l, 7) == f(7));
    assert(h == chunks_word((h >> 48u64) as u16, (h >> 32u64) as u16, (h >> 16u64) as u16, (h >> 0u64) as u16))
        by (bit_vector);
    assert(o == chunks_word((o >> 48u64) as u16, (o >> 32u64) as u16, (o >> 16u64) as u16, (o >> 0u64) as u16))
        by (bit_vector);
}

proof fn lemma_zero_lane_parts(b: int, c: int)
    ensures
        lane_byte(Lane { hi: 0, lo: 0 }, b) == 0,
        lane_chunk(Lane { hi: 0, lo: 0 }, c) == 0,
{
    let sb: u64 = if b < 8 { ((7 - b) * 8) as u64 } else { ((15 - b) * 8) as u64 };
    let sc: u64 = if c < 4 { ((3 - c) * 16) as u64 } else { ((7 - c) * 16) as u64 };
    assert((0u64 >> sb) as u8 == 0 && (0u64 >> sc) as u16 == 0) by (bit_vector);
}

/// Byte `b` of a lane.
fn byte_at(lane: Lane, b: usize) -> (r: u8)
    requires
        b < 16,
    ensures
        r == lane_byte(lane, b as int),
{
    if b < 8 {
        (lane.hi >> ((7 - b) * 8) as u64) as u8
    } else {
        (lane.lo >> ((15 - b) * 8) as u64) as u8
    }
}

/// ORs `v` into byte `b` of a lane whose byte `b` is zero.
fn or_byte(lane: Lane, b: usize, v: u8) -> (r: Lane)
    requires
        b < 16,
        lane_byte(lane, b as int) == 0,
    ensures
        lane_byte(r, b as int) == v,
        forall|b2: int| 0 <= b2 < 16 && b2 != b ==> #[trigger] lane_byte(r, b2) == lane_byte(lane, b2),
{
    let out = v as u64;
    let mut r = lane;
    if b < 8 {
        r.hi = r.hi | (out << ((7 - b) * 8) as u64);
    } else {
        r.lo = r.lo | (out << ((15 - b) * 8) as u64);
    }
    proof {
        assert forall|b2: int| 0 <= b2 < 16 implies #[trigger] lane_byte(r, b2) == (if b2 == b {
            v
        } else {
            lane_byte(lane, b2)
        }) by {
            if b < 8 {
                if b2 < 8 {
                    lemma_or_byte(lane.hi, v, ((7 - b) * 8) as u64, ((7 - b2) * 8) as u64);
                }
            } else {
                if b2 >= 8 {
                    lemma_or_byte(lane.lo, v, ((15 - b) * 8) as u64, ((15 - b2) * 8) as u64);
                }
            }
        }
    }
    r
}

/// Chunk `c` of a lane.
fn chunk_at(lane: Lane, c: usize) -> (r: u16)
    requires
        c < 8,
    ensures
        r == lane_chunk(lane, c as int),
{
    if c < 4 {
        (lane.hi >> ((3 - c) * 16) as u64) as u16
    } else {
        (lane.lo >> ((7 - c) * 16) as u64) as u16
    }
}

/// ORs `v` into chunk `c` of a lane whose chunk `c` is zero.
fn or_chunk(lane: Lane, c: usize, v: u16) -> (r: Lane)
    requires
        c < 8,
        lane_chunk(lane, c as int) == 0,
    ensures
        lane_chunk(r, c as int) == v,
        forall|c2: int| 0 <= c2 < 8 && c2 != c ==> #[trigger] lane_chunk(r, c2) == lane_chunk(lane, c2),
{
    let out = v as u64;
    let mut r = lane;
    if c < 4 {
        r.hi = r.hi | (out << ((3 - c) * 16) as u64);
    } else {
        r.lo = r.lo | (out << ((7 - c) * 16) as u64);
    }
    proof {
        assert forall|c2: int| 0 <= c2 < 8 implies #[trigger] lane_chunk(r, c2) == (if c2 == c {
            v
        } else {
            lane_chunk(lane, c2)
        }) by {
            if c < 4 {
                if c2 < 4 {
                    lemma_or_chunk(lane.hi, v, ((3 - c) * 16) as u64, ((3 - c2) * 16) as u64);
                }
            } else {
                if c2 >= 4 {
                    lemma_or_chunk(lane.lo, v, ((7 - c) * 16) as u64, ((7 - c2) * 16) as u64);
                }
            }
        }
    }
    r
}

proof fn lemma_xor_sum8_ext(f: spec_fn(int) -> u8, g: spec_fn(int) -> u8, n: int)
    requires
        forall|j: int| 0 <= j < n ==> #[trigger] f(j) == g(j),
    ensures
        xor_sum8(f, n) == xor_sum8(g, n),
    decreases n,
{
    if n > 0 {
        lemma_xor_sum8_ext(f, g, n - 1);
    }
}

proof fn lemma_xor_sum16_ext(f: spec_fn(int) -> u16, g: spec_fn(int) -> u16, n: int)
    requires
        forall|j: int| 0 <= j < n ==> #[trigger] f(j) == g(j),
    ensures
        xor_sum16(f, n) == xor_sum16(g, n),
    decreases n,
{
    if n > 0 {
        lemma_xor_sum16_ext(f, g, n - 1);
    }
}

/// Row `i` of `M_COL` times a byte vector.
fn col_dot(i: usize, vec: &[u8; 16]) -> (r: u8)
    requires
        i < 16,
    ensures
        r == xor_sum8(|j: int| gf8_mul(M_COL[i as int][j], vec@[j]), 16),
{
    let ghost f = |j: int| gf8_mul(M_COL[i as int][j], vec@[j]);
    let mut sum = 0u8;
    let mut j: usize = 0;
    while j < 16
        invariant
            j <= 16,
            i < 16,
            f == (|j: int| gf8_mul(M_COL[i as int][j], vec@[j])),
            sum == xor_sum8(f, j as int),
        decreases 16 - j,
    {
        sum ^= field8::mul(M_COL[i][j], vec[j]);
        j = j + 1;
    }
    sum
}

/// Row `i` of `M_ROW` times a chunk vector.
fn row_dot(i: usize, vec: &[u16; 8]) -> (r: u16)
    requires
        i < 8,
    ensures
        r == xor_sum16(|j: int| gf16_mul(M_ROW[i as int][j], vec@[j]), 8),
{
    let ghost f = |j: int| gf16_mul(M_ROW[i as int][j], vec@[j]);
    let mut sum = 0u16;
    let mut j: usize = 0;
    while j < 8
        invariant
            j <= 8,
            i < 8,
            f == (|j: int| gf16_mul(M_ROW[i as int][j], vec@[j])),
            sum == xor_sum16(f, j as int),
        decreases 8 - j,
    {
        sum ^= field16::mul(M_ROW[i][j], vec[j]);
        j = j + 1;
    }
    sum
}

/// Mixes one column of 16 lanes by `M_COL`, byte position by byte position.
fn mix_column(col_lanes: &[Lane; 16]) -> (out: [Lane; 16])
    ensures
        forall|i: int| 0 <= i < 16 ==> #[trigger] out@[i] == mixed_column(col_lanes@, i),
{
    let ghost v = col_lanes@;
    let mut out_lanes = [Lane::new(0, 0); 16];
    proof {
        assert forall|r: int, b2: int| 0 <= r < 16 && 0 <= b2 < 16 implies #[trigger] lane_byte(out_lanes@[r], b2) == 0 by {
            lemma_zero_lane_parts(b2, 0);
        }
    }
    let mut b: usize = 0;
    while b < 16
        invariant
            b <= 16,
            v == col_lanes@,
            out_lanes@.len() == 16,
            forall|r: int, b2: int|
                0 <= r < 16 && 0 <= b2 < b ==> #[trigger] lane_byte(out_lanes@[r], b2) == col_byte(v, r, b2),
            forall|r: int, b2: int|
                0 <= r < 16 && b <= b2 < 16 ==> #[trigger] lane_byte(out_lanes@[r], b2) == 0,
        decreases 16 - b,
    {
        let mut vec = [0u8; 16];
        let mut row: usize = 0;
        while row < 16
            invariant
                row <= 16,
                b < 16,
                v == col_lanes@,
                vec@.len() == 16,
                forall|j: int| 0 <= j < row ==> vec@[j] == lane_byte(v[j], b as int),
            decreases 16 - row,
        {
            vec[row] = byte_at(col_lanes[row], b);
            row = row + 1;
        }
        let ghost out0 = out_lanes@;
        let mut i: usize = 0;
        while i < 16
            invariant
                i <= 16,
                b < 16,
                v == col_lanes@,
                forall|j: int| 0 <= j < 16 ==> vec@[j] == lane_byte(v[j], b as int),
                out_lanes@.len() == 16,
                out0.len() == 16,
                forall|r: int| i <= r < 16 ==> out_lanes@[r] == out0[r],
                forall|r: int, b2: int|
                    0 <= r < i && 0 <= b2 < 16 && b2 != b ==> #[trigger] lane_byte(out_lanes@[r], b2)
                        == lane_byte(out0[r], b2),
                forall|r: int| 0 <= r < i ==> #[trigger] lane_byte(out_lanes@[r], b as int) == col_byte(v, r, b as int),
                forall|r: int, b2: int|
                    0 <= r < 16 && b <= b2 < 16 ==> #[trigger] lane_byte(out0[r], b2) == 0,
            decreases 16 - i,
        {
            let s = col_dot(i, &vec);
            proof {
                lemma_xor_sum8_ext(
                    |j: int| gf8_mul(M_COL[i as int][j], vec@[j]),
                    |j: int| gf8_mul(M_COL[i as int][j], lane_byte(v[j], b as int)),
                    16,
                );
            }
            assert(lane_byte(out0[i as int], b as int) == 0);
            out_lanes[i] = or_byte(out_lanes[i], b, s);
            i = i + 1;
        }
        b = b + 1;
    }
    proof {
        assert forall|i: int| 0 <= i < 16 implies #[trigger] out_lanes@[i] == mixed_column(v, i) by {
            lemma_bytes_determine_lane(out_lanes@[i], |b2: int| col_byte(v, i, b2));
        }
    }
    out_lanes
}

/// Mixes one row of 8 lanes by `M_ROW`, chunk position by chunk position.
fn mix_row(row_lanes: &[Lane; 8]) -> (out: [Lane; 8])
    ensures
        forall|i: int| 0 <= i < 8 ==> #[trigger] out@[i] == mixed_row(row_lanes@, i),
{
    let ghost v = row_lanes@;
    let mut out_lanes = [Lane::new(0, 0); 8];
    proof {
        assert forall|r: int, c2: int| 0 <= r < 8 && 0 <= c2 < 8 implies #[trigger] lane_chunk(out_lanes@[r], c2) == 0 by {
            lemma_zero_lane_parts(0, c2);
        }
    }
    let mut c: usize = 0;
    while c < 8
        invariant
            c <= 8,
            v == row_lanes@,
            out_lanes@.len() == 8,
            forall|r: int, c2: int|
                0 <= r < 8 && 0 <= c2 < c ==> #[trigger] lane_chunk(out_lanes@[r], c2) == row_chunk(v, r, c2),
            forall|r: int, c2: int|
                0 <= r < 8 && c <= c2 < 8 ==> #[trigger] lane_chunk(out_lanes@[r], c2) == 0,
        decreases 8 - c,
    {
        let mut vec = [0u16; 8];
        let mut col: usize = 0;
        while col < 8
            invariant
                col <= 8,
                c < 8,
                v == row_lanes@,
                vec@.len() == 8,
                forall|j: int| 0 <= j < col ==> vec@[j] == lane_chunk(v[j], c as int),
            decreases 8 - col,
        {
            vec[col] = chunk_at(row_lanes[col], c);
            col = col + 1;
        }
        let ghost out0 = out_lanes@;
        let mut i: usize = 0;
        while i < 8
            invariant
                i <= 8,
                c < 8,
                v == row_lanes@,
                forall|j: int| 0 <= j < 8 ==> vec@[j] == lane_chunk(v[j], c as int),
                out_lanes@.len() == 8,
                out0.len() == 8,
                forall|r: int| i <= r < 8 ==> out_lanes@[r] == out0[r],
                forall|r: int, c2: int|
                    0 <= r < i && 0 <= c2 < 8 && c2 != c ==> #[trigger] lane_chunk(out_lanes@[r], c2)
                        == lane_chunk(out0[r], c2),
                forall|r: int| 0 <= r < i ==> #[trigger] lane_chunk(out_lanes@[r], c as int) == row_chunk(v, r, c as int),
                forall|r: int, c2: int|
                    0 <= r < 8 && c <= c2 < 8 ==> #[trigger] lane_chunk(out0[r], c2) == 0,
            decreases 8 - i,
        {
            let s = row_dot(i, &vec);
            proof {
                lemma_xor_sum16_ext(
                    |j: int| gf16_mul(M_ROW[i as int][j], vec@[j]),
                    |j: int| gf16_mul(M_ROW[i as int][j], lane_chunk(v[j], c as int)),
                    8,
                );
            }
            assert(lane_chunk(out0[i as int], c as int) == 0);
            out_lanes[i] = or_chunk(out_lanes[i], c, s);
            i = i + 1;
        }
        c = c + 1;
    }
    proof {
        assert forall|i: int| 0 <= i < 8 implies #[trigger] out_lanes@[i] == mixed_row(v, i) by {
            lemma_chunks_determine_lane(out_lanes@[i], |c2: int| row_chunk(v, i, c2));
        }
    }
    out_lanes
}

/// MixLanes_B on the whole state: every column by `M_COL`, then every row by `M_ROW`.
pub fn mix_lanes(lanes: &mut [Lane; 128])
    ensures
        final(lanes)@ == spec_mix_lanes_b(old(lanes)@),
{
    let ghost s0 = lanes@;
    let mut col: usize = 0;
    while col < 8
        invariant
            col <= 8,
            lanes@.len() == 128,
            forall|k: int| 0 <= k < 128 && k % 8 < col ==> lanes@[k] == #[trigger] spec_mix_cols(s0)[k],
            forall|k: int| 0 <= k < 128 && k % 8 >= col ==> lanes@[k] == #[trigger] s0[k],
        decreases 8 - col,
    {
        let mut col_lanes = [Lane::new(0, 0); 16];
        let mut row: usize = 0;
        while row < 16
            invariant
                row <= 16,
                col < 8,
                col_lanes@.len() == 16,
                forall|j: int| 0 <= j < row ==> col_lanes@[j] == lanes@[j * 8 + col],
            decreases 16 - row,
        {
            col_lanes[row] = lanes[row * 8 + col];
            row = row + 1;
        }
        assert(col_lanes@ =~= column(s0, col as int));
        let out_lanes = mix_column(&col_lanes);
        let ghost before = lanes@;
        let mut row: usize = 0;
        while row < 16
            invariant
                row <= 16,
                col < 8,
                lanes@.len() == 128,
                forall|j: int| 0 <= j < 16 ==> out_lanes@[j] == mixed_column(column(s0, col as int), j),
                forall|k: int| 0 <= k < 128 && (k % 8 != col || k / 8 >= row) ==> lanes@[k] == before[k],
                forall|k: int| 0 <= k < 128 && k % 8 == col && k / 8 < row ==> lanes@[k] == out_lanes@[k / 8],
            decreases 16 - row,
        {
            lanes[row * 8 + col] = out_lanes[row];
            row = row + 1;
        }
        col = col + 1;
    }
    let ghost s1 = lanes@;
    assert(s1 =~= spec_mix_cols(s0));

    let mut row: usize = 0;
    while row < 16
        invariant
            row <= 16,
            lanes@.len() == 128,
            forall|k: int| 0 <= k < 128 && k / 8 < row ==> lanes@[k] == #[trigger] spec_mix_rows(s1)[k],
            forall|k: int| 0 <= k < 128 && k / 8 >= row ==> lanes@[k] == #[trigger] s1[k],
        decreases 16 - row,
    {
        let mut row_lanes = [Lane::new(0, 0); 8];
        let mut col: usize = 0;
        while col < 8
            invariant
                col <= 8,
                row < 16,
                row_lanes@.len() == 8,
                forall|j: int| 0 <= j < col ==> row_lanes@[j] == lanes@[row * 8 + j],
            decreases 8 - col,
        {
            row_lanes[col] = lanes[row * 8 + col];
            col = col + 1;
        }
        assert(row_lanes@ =~= row_of(s1, row as int));
        let out_lanes = mix_row(&row_lanes);
        let ghost before = lanes@;
        let mut col: usize = 0;
        while col < 8
            invariant
                col <= 8,
                row < 16,
                lanes@.len() == 128,
                forall|j: int| 0 <= j < 8 ==> out_lanes@[j] == mixed_row(row_of(s1, row as int), j),
                forall|k: int| 0 <= k < 128 && (k / 8 != row || k % 8 >= col) ==> lanes@[k] == before[k],
                forall|k: int| 0 <= k < 128 && k / 8 == row && k % 8 < col ==> lanes@[k] == out_lanes@[k % 8],
            decreases 8 - col,
        {
            lanes[row * 8 + col] = out_lanes[col];
            col = col + 1;
        }
        row = row + 1;
    }
    assert(lanes@ =~= spec_mix_rows(s1));
}

} // verus!
