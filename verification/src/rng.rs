//! The engine's only contact with randomness: an opaque generator handle and
//! an in-place shuffle.  Everything downstream of a shuffle is verified for
//! every order the shuffle could leave behind.

use rand::seq::SliceRandom;
use vstd::prelude::*;

verus! {

#[verifier::external_type_specification]
#[verifier::external_body]
pub struct ExThreadRng(rand::rngs::ThreadRng);

/// Relies on rand's `SliceRandom::shuffle`: a Fisher-Yates pass that
/// reorders the slice in place by swaps, so the length and the multiset of
/// elements are kept; the order it leaves depends on the generator's draws.
#[verifier::external_body]
pub(crate) fn shuffle<T>(items: &mut Vec<T>, rng: &mut rand::rngs::ThreadRng)
    ensures
        final(items)@.len() == old(items)@.len(),
        final(items)@.to_multiset() == old(items)@.to_multiset(),
{
    items.shuffle(rng)
}

} // verus!
