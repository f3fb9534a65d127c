//! The S-box of layer C: alternating power maps over GF(p).
use crate::field_p::{fp_pow, modulus, pow5, powd, D, P};
use vstd::arithmetic::power::pow;
use vstd::prelude::*;

verus! {

/// Odd rounds apply `x^5`, even rounds the inverse map `x^d`.
pub open spec fn spec_sbox_c(x: u128, round: int) -> u128 {
    if round % 2 == 1 {
        fp_pow(x as int, 5) as u128
    } else {
        fp_pow(x as int, D as nat) as u128
    }
}

/// Round parity decides the map: on odd rounds the S-box is `x^5 mod p`
/// (`x * x * x * x * x`), on even rounds it is `x^d mod p`, the inverse map.
pub proof fn lemma_sbox_c_round_parity(x: u128, round: int)
    ensures
        round % 2 == 1 ==> spec_sbox_c(x, round) as int == (x * (x * (x * (x * x)))) % modulus(),
        round % 2 != 1 ==> spec_sbox_c(x, round) as int == pow(x as int, D as nat) % modulus(),
        spec_sbox_c(x, round) < P,
{
    reveal_with_fuel(pow, 6);
    assert(pow(x as int, 5) == x * (x * (x * (x * (x * 1)))));
    assert(x * 1 == x);
}

/// Applies the S-box of the given round to one field element.
pub fn apply(x: u128, round: usize) -> (r: u128)
    requires
        x <= P,
    ensures
        r == spec_sbox_c(x, round as int),
        r < P,
{
    if round % 2 == 1 {
        pow5(x)
    } else {
        powd(x)
    }
}

} // verus!
