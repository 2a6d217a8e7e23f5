//! The one place the library draws randomness: shuffling the cell indices
//! from which the mine positions are taken.

use rand::seq::SliceRandom;
use vstd::prelude::*;

verus! {

/// Relies on `rand::seq::SliceRandom::shuffle` with `rand::thread_rng`:
/// a Fisher–Yates shuffle rearranges the slice in place by swaps, so the
/// multiset of its elements is unchanged. Nothing is assumed about the
/// resulting order.
#[verifier::external_body]
pub(crate) fn shuffle_indices(v: &mut Vec<usize>)
    ensures
        final(v)@.to_multiset() == old(v)@.to_multiset(),
        final(v)@.len() == old(v)@.len(),
{
    let mut rng = rand::thread_rng();
    v.shuffle(&mut rng);
}

} // verus!
