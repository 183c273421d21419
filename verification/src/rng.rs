use vstd::prelude::*;
use rand::seq::SliceRandom;

verus! {

/// Rolls a six-sided dice with `rand::random_range` over `1..=6`: the result is between 1 and 6,
/// chance decides which.
#[verifier::external_body]
pub(crate) fn roll_dice() -> (r: u8)
    ensures
        1 <= r <= 6,
{
    rand::random_range(1..=6u8)
}

/// Shuffles the items with `SliceRandom::shuffle` and the thread's generator: the same items,
/// in an order that chance decides.
#[verifier::external_body]
pub(crate) fn shuffle<T>(v: &mut Vec<T>)
    ensures
        final(v)@.to_multiset() == old(v)@.to_multiset(),
{
    v.shuffle(&mut rand::rng());
}

} // verus!
