//! The S-box of layer B: inversion in GF(2^128).
use crate::field_b::{gf_pow, inv, lemma_gf_pow_one, lemma_gf_pow_zero};
use crate::state::{lane_val, lemma_lane_val_roundtrip, val_lane, Lane};
use vstd::prelude::*;

verus! {

/// The inversion exponent 2^128 - 2.
pub open spec fn inv_exponent() -> nat {
    0xffff_ffff_ffff_ffff_ffff_ffff_ffff_fffe
}

/// The S-box: `x -> x^(2^128 - 2)`, the inverse of `x` for `x != 0`, and 0 for 0.
pub open spec fn spec_sbox_b(x: Lane) -> Lane {
    val_lane(gf_pow(lane_val(x), inv_exponent()))
}

/// Zero and one are fixed points of the S-box.
pub proof fn lemma_sbox_b_fixes_zero_and_one()
    ensures
        spec_sbox_b(Lane { hi: 0, lo: 0 }) == (Lane { hi: 0, lo: 0 }),
        spec_sbox_b(Lane { hi: 0, lo: 1 }) == (Lane { hi: 0, lo: 1 }),
{
    lemma_gf_pow_zero(inv_exponent());
    lemma_gf_pow_one(inv_exponent());
    lemma_lane_val_roundtrip(Lane { hi: 0, lo: 0 }, 0);
    lemma_lane_val_roundtrip(Lane { hi: 0, lo: 1 }, 1);
    crate::field_b::lemma_lane_consts();
}

/// Applies the S-box to one lane.
pub fn apply(x: Lane) -> (r: Lane)
    ensures
        r == spec_sbox_b(x),
{
    let r = inv(x);
    proof {
        crate::state::lemma_lane_val_roundtrip(r, 0);
    }
    r
}

} // verus!
