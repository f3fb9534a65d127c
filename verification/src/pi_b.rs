//! Layer B of the permutation: the GF(2^128) inversion S-box, MixLanes_B,
//! then routing by sigma_B with per-lane round constants.
use crate::constants::{rc_b, sigma_b, spec_rc_b, spec_sigma_b};
use crate::mds_b;
use crate::mds_b::spec_mix_lanes_b;
use crate::sbox_b;
use crate::sbox_b::spec_sbox_b;
use crate::state::Lane;
use vstd::prelude::*;

verus! {

/// The S-box on every lane.
pub open spec fn sbox_all(s: Seq<Lane>) -> Seq<Lane> {
    Seq::new(128, |i: int| spec_sbox_b(s[i]))
}

/// Routing by sigma_B, then the per-lane round constants XORed in.
pub open spec fn route_b(s: Seq<Lane>, r: int) -> Seq<Lane> {
    Seq::new(
        128,
        |i: int|
            Lane {
                hi: s[spec_sigma_b(i)].hi ^ spec_rc_b(r, i).0,
                lo: s[spec_sigma_b(i)].lo ^ spec_rc_b(r, i).1,
            },
    )
}

/// Round `r` of layer B.
pub open spec fn round_b(s: Seq<Lane>, r: int) -> Seq<Lane> {
    route_b(spec_mix_lanes_b(sbox_all(s)), r)
}

/// The first `n` rounds of layer B.
pub open spec fn pi_b_rounds(s: Seq<Lane>, n: nat) -> Seq<Lane>
    decreases n,
{
    if n == 0 {
        s
    } else {
        round_b(pi_b_rounds(s, (n - 1) as nat), n - 1)
    }
}

/// Layer B: 32 rounds.
pub open spec fn spec_pi_b(s: Seq<Lane>) -> Seq<Lane> {
    pi_b_rounds(s, 32)
}

/// Applies layer B to the 128 lanes in place.
pub fn pi_b(lanes: &mut [Lane; 128])
    ensures
        final(lanes)@ == spec_pi_b(old(lanes)@),
{
    let ghost s0 = lanes@;
    let mut r: usize = 0;
    while r < 32
        invariant
            r <= 32,
            lanes@ == pi_b_rounds(s0, r as nat),
        decreases 32 - r,
    {
        let ghost s = lanes@;
        let mut i: usize = 0;
        while i < 128
            invariant
                i <= 128,
                lanes@.len() == 128,
                forall|j: int| 0 <= j < i ==> lanes@[j] == spec_sbox_b(s[j]),
                forall|j: int| i <= j < 128 ==> lanes@[j] == s[j],
            decreases 128 - i,
        {
            lanes[i] = sbox_b::apply(lanes[i]);
            i = i + 1;
        }
        assert(lanes@ =~= sbox_all(s));

        mds_b::mix_lanes(lanes);
        let ghost s2 = lanes@;

        let mut next = [Lane::new(0, 0); 128];
        let mut i: usize = 0;
        while i < 128
            invariant
                i <= 128,
                lanes@ == s2,
                next@.len() == 128,
                forall|j: int| 0 <= j < i ==> next@[j] == s2[spec_sigma_b(j)],
            decreases 128 - i,
        {
            next[i] = lanes[sigma_b(i)];
            i = i + 1;
        }

        let mut i: usize = 0;
        while i < 128
            invariant
                i <= 128,
                r < 32,
                s2.len() == 128,
                next@.len() == 128,
                forall|j: int|
                    0 <= j < i ==> next@[j] == (Lane {
                        hi: s2[spec_sigma_b(j)].hi ^ spec_rc_b(r as int, j).0,
                        lo: s2[spec_sigma_b(j)].lo ^ spec_rc_b(r as int, j).1,
                    }),
                forall|j: int| i <= j < 128 ==> next@[j] == s2[spec_sigma_b(j)],
            decreases 128 - i,
        {
            let (ch, cl) = rc_b(r, i);
            let l = next[i];
            next[i] = Lane::new(l.hi ^ ch, l.lo ^ cl);
            i = i + 1;
        }
        *lanes = next;
        assert(lanes@ =~= route_b(s2, r as int));
        r = r + 1;
    }
}

} // verus!
