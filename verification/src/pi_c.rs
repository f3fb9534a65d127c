//! Layer C of the permutation: alternating power maps over GF(p), MixLanes_C,
//! then routing by sigma_C with per-lane round constants added in GF(p).
use crate::constants::{rc_c, sigma_c, spec_rc_c, spec_sigma_c};
use crate::field_p;
use crate::field_p::{modulus, P};
use crate::mds_c;
use crate::mds_c::spec_mix_lanes_c;
use crate::sbox_c;
use crate::sbox_c::spec_sbox_c;
use vstd::prelude::*;

verus! {

/// The S-box of round `r` on every element.
pub open spec fn sbox_c_all(s: Seq<u128>, r: int) -> Seq<u128> {
    Seq::new(128, |i: int| spec_sbox_c(s[i], r))
}

/// Routing by sigma_C, then the per-lane round constants added modulo p.
pub open spec fn route_c(s: Seq<u128>, r: int) -> Seq<u128> {
    Seq::new(128, |i: int| ((s[spec_sigma_c(i)] as int + spec_rc_c(r, i) as int) % modulus()) as u128)
}

/// Round `r` of layer C.
pub open spec fn round_c(s: Seq<u128>, r: int) -> Seq<u128> {
    route_c(spec_mix_lanes_c(sbox_c_all(s, r)), r)
}

/// The first `n` rounds of layer C.
pub open spec fn pi_c_rounds(s: Seq<u128>, n: nat) -> Seq<u128>
    decreases n,
{
    if n == 0 {
        s
    } else {
        round_c(pi_c_rounds(s, (n - 1) as nat), n - 1)
    }
}

/// Layer C: 32 rounds.
pub open spec fn spec_pi_c(s: Seq<u128>) -> Seq<u128> {
    pi_c_rounds(s, 32)
}

/// Applies layer C to 128 field elements in place.
pub fn pi_c(f: &mut [u128; 128])
    requires
        forall|k: int| 0 <= k < 128 ==> old(f)@[k] <= P,
    ensures
        final(f)@ == spec_pi_c(old(f)@),
        forall|k: int| 0 <= k < 128 ==> final(f)@[k] < P,
{
    let ghost s0 = f@;
    let mut r: usize = 0;
    while r < 32
        invariant
            r <= 32,
            f@ == pi_c_rounds(s0, r as nat),
            forall|k: int| 0 <= k < 128 ==> f@[k] <= P,
            r > 0 ==> forall|k: int| 0 <= k < 128 ==> f@[k] < P,
        decreases 32 - r,
    {
        let ghost s = f@;
        let mut i: usize = 0;
        while i < 128
            invariant
                i <= 128,
                f@.len() == 128,
                s.len() == 128,
                forall|j: int| 0 <= j < i ==> f@[j] == spec_sbox_c(s[j], r as int) && f@[j] < P,
                forall|j: int| i <= j < 128 ==> f@[j] == s[j] && s[j] <= P,
            decreases 128 - i,
        {
            assert(f@[i as int] == s[i as int] && s[i as int] <= P);
            f[i] = sbox_c::apply(f[i], r);
            i = i + 1;
        }
        assert(f@ =~= sbox_c_all(s, r as int));

        mds_c::mix_lanes(f);
        let ghost s2 = f@;

        let mut next = [0u128; 128];
        let mut i: usize = 0;
        while i < 128
            invariant
                i <= 128,
                f@ == s2,
                forall|k: int| 0 <= k < 128 ==> s2[k] < P,
                next@.len() == 128,
                forall|j: int| 0 <= j < i ==> next@[j] == s2[spec_sigma_c(j)],
            decreases 128 - i,
        {
            next[i] = f[sigma_c(i)];
            i = i + 1;
        }

        let mut i: usize = 0;
        while i < 128
            invariant
                i <= 128,
                r < 32,
                s2.len() == 128,
                forall|k: int| 0 <= k < 128 ==> s2[k] < P,
                next@.len() == 128,
                forall|j: int|
                    0 <= j < i ==> next@[j] == ((s2[spec_sigma_c(j)] as int + spec_rc_c(r as int, j) as int)
                        % modulus()) as u128 && next@[j] < P,
                forall|j: int| i <= j < 128 ==> next@[j] == s2[spec_sigma_c(j)],
            decreases 128 - i,
        {
            let rc = rc_c(r, i);
            next[i] = field_p::add(next[i], rc);
            i = i + 1;
        }
        *f = next;
        assert(f@ =~= route_c(s2, r as int));
        r = r + 1;
    }
}

} // verus!
