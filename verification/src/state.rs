//! The sponge state: 128 lanes of 128 bits.
use vstd::prelude::*;

verus! {

/// A 128-bit lane, as two 64-bit halves.
#[derive(Clone, Copy, Debug, PartialEq, Eq, Structural)]
pub struct Lane {
    pub hi: u64,
    pub lo: u64,
}

/// The 128-bit value of a lane: `hi` is the upper half, `lo` the lower half.
pub open spec fn lane_val(l: Lane) -> u128 {
    ((l.hi as u128) << 64u32) | (l.lo as u128)
}

/// The lane holding a 128-bit value.
pub open spec fn val_lane(v: u128) -> Lane {
    Lane { hi: (v >> 64u32) as u64, lo: v as u64 }
}

/// A lane and its 128-bit value determine each other.
pub proof fn lemma_lane_val_roundtrip(l: Lane, v: u128)
    ensures
        val_lane(lane_val(l)) == l,
        lane_val(val_lane(v)) == v,
{
    let h = l.hi;
    let o = l.lo;
    let w = lane_val(l);
    assert((w >> 64u32) as u64 == h && w as u64 == o) by (bit_vector)
        requires
            w == ((h as u128) << 64u32) | (o as u128),
    ;
    let vh = (v >> 64u32) as u64;
    let vl = v as u64;
    assert(((vh as u128) << 64u32) | (vl as u128) == v) by (bit_vector)
        requires
            vh == (v >> 64u32) as u64,
            vl == v as u64,
    ;
}

impl Lane {
    /// A lane from its two halves.
    pub fn new(hi: u64, lo: u64) -> (r: Lane)
        ensures
            r == (Lane { hi, lo }),
    {
        Lane { hi, lo }
    }
}

/// The full 16,384-bit state.
pub struct State {
    pub lanes: [Lane; 128],
}

/// The all-zero state.
pub open spec fn zero_lanes() -> Seq<Lane> {
    Seq::new(128, |i: int| Lane { hi: 0, lo: 0 })
}

impl State {
    /// The all-zero state.
    pub fn new() -> (s: State)
        ensures
            s.lanes@ == zero_lanes(),
    {
        let s = State { lanes: [Lane::new(0, 0); 128] };
        assert(s.lanes@ =~= zero_lanes());
        s
    }
}

impl Default for State {
    /// The all-zero state.
    fn default() -> (s: State)
        ensures
            s.lanes@ == zero_lanes(),
    {
        State::new()
    }
}

} // verus!
