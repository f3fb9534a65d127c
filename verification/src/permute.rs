//! The full permutation: layer C after layer B after layer A.
//!
//! Between layers B and C every lane is reduced modulo p = 2^127 - 1, so the
//! cascade maps 2^16384 states onto a smaller set: it is a surjection onto its
//! image, not a bijection.
use crate::field_p;
use crate::field_p::{modulus, P};
use crate::pi_a;
use crate::pi_a::spec_pi_a;
use crate::pi_b;
use crate::pi_b::spec_pi_b;
use crate::pi_c;
use crate::pi_c::spec_pi_c;
use crate::state::{lane_val, lemma_lane_val_roundtrip, val_lane, Lane, State};
use vstd::prelude::*;

verus! {

/// Each lane read as an integer and reduced modulo p.
pub open spec fn lanes_to_field(s: Seq<Lane>) -> Seq<u128> {
    Seq::new(128, |i: int| (lane_val(s[i]) as int % modulus()) as u128)
}

/// Each field element written back as a lane.
pub open spec fn field_to_lanes(f: Seq<u128>) -> Seq<Lane> {
    Seq::new(128, |i: int| val_lane(f[i]))
}

/// The full permutation on the 128 lanes.
pub closed spec fn spec_permute(s: Seq<Lane>) -> Seq<Lane> {
    field_to_lanes(spec_pi_c(lanes_to_field(spec_pi_b(spec_pi_a(s)))))
}

/// The permutation is layer A, then layer B, then the reduction of every lane
/// modulo p, then layer C.
pub proof fn lemma_permute_def(s: Seq<Lane>)
    ensures
        spec_permute(s) == field_to_lanes(spec_pi_c(lanes_to_field(spec_pi_b(spec_pi_a(s))))),
{
}

/// Every lane of a permuted state holds a value below p = 2^127 - 1: the
/// permutation reaches only part of the state space.
pub proof fn lemma_permute_lanes_below_p(s: Seq<Lane>)
    ensures
        spec_permute(s).len() == 128,
        forall|i: int| 0 <= i < 128 ==> lane_val(#[trigger] spec_permute(s)[i]) < P,
{
    let f = spec_pi_c(lanes_to_field(spec_pi_b(spec_pi_a(s))));
    assert(f == crate::pi_c::round_c(crate::pi_c::pi_c_rounds(lanes_to_field(spec_pi_b(spec_pi_a(s))), 31), 31));
    assert forall|i: int| 0 <= i < 128 implies lane_val(#[trigger] spec_permute(s)[i]) < P by {
        lemma_lane_val_roundtrip(Lane { hi: 0, lo: 0 }, f[i]);
    }
}

/// Applies the full permutation to the state in place.
pub fn permute(state: &mut State)
    ensures
        final(state).lanes@ == spec_permute(old(state).lanes@),
{
    pi_a::pi_a(&mut state.lanes);
    pi_b::pi_b(&mut state.lanes);
    let ghost sb = state.lanes@;

    let mut f = [0u128; 128];
    let mut i: usize = 0;
    while i < 128
        invariant
            i <= 128,
            state.lanes@ == sb,
            f@.len() == 128,
            forall|j: int| 0 <= j < i ==> f@[j] == (lane_val(sb[j]) as int % modulus()) as u128 && f@[j] < P,
        decreases 128 - i,
    {
        let l = state.lanes[i];
        let v = ((l.hi as u128) << 64u32) | (l.lo as u128);
        f[i] = field_p::reduce(v);
        i = i + 1;
    }
    assert(f@ =~= lanes_to_field(sb));

    pi_c::pi_c(&mut f);
    let ghost fc = f@;

    let mut i: usize = 0;
    while i < 128
        invariant
            i <= 128,
            f@ == fc,
            state.lanes@.len() == 128,
            forall|j: int| 0 <= j < i ==> state.lanes@[j] == val_lane(fc[j]),
        decreases 128 - i,
    {
        let x = f[i];
        let hi = (x >> 64u32) as u64;
        let lo = (x & 0xFFFF_FFFF_FFFF_FFFFu128) as u64;
        proof {
            assert((x & 0xFFFF_FFFF_FFFF_FFFFu128) as u64 == x as u64) by (bit_vector);
        }
        state.lanes[i] = Lane::new(hi, lo);
        i = i + 1;
    }
    assert(state.lanes@ =~= field_to_lanes(fc));
}

} // verus!
