//! Trusted boundary to the `rand` crate: in-place shuffling and random
//! alphanumeric bytes. Nothing is assumed of *which* permutation or byte
//! comes back, only what holds of every outcome.

use rand::seq::SliceRandom;
use rand::Rng;
use vstd::prelude::*;

verus! {

/// True of the ASCII bytes `0`-`9`, `A`-`Z` and `a`-`z`.
pub open spec fn is_alphanumeric_byte(b: u8) -> bool {
    (48 <= b && b <= 57) || (65 <= b && b <= 90) || (97 <= b && b <= 122)
}

/// Relies on rand's `SliceRandom::shuffle`: it reorders the slice in place by
/// swapping elements, so the multiset of elements (and hence the length) is
/// unchanged; nothing is assumed about the resulting order.
#[verifier::external_body]
pub(crate) fn shuffle<T>(v: &mut Vec<T>)
    ensures
        final(v)@.to_multiset() == old(v)@.to_multiset(),
        final(v)@.len() == old(v)@.len(),
{
    v.shuffle(&mut rand::thread_rng());
}

/// Relies on rand's `Alphanumeric` distribution: sampling a `u8` from it
/// yields an ASCII letter or digit, drawn from the thread-local generator.
#[verifier::external_body]
pub(crate) fn random_alphanumeric_byte() -> (b: u8)
    ensures
        is_alphanumeric_byte(b),
{
    rand::thread_rng().sample(rand::distributions::Alphanumeric)
}

} // verus!
