//! The engine's only sources of randomness, kept behind two small wrappers
//! around the `rand` crate.

use vstd::prelude::*;
use rand::seq::SliceRandom;

verus! {

pub struct Util;

impl Util {
    /// Relies on rand::seq::SliceRandom::shuffle: a uniformly random in-place
    /// permutation of the slice, so the result holds exactly the given items
    /// (same multiset, same length), generally in a different order.
    #[verifier::external_body]
    pub fn shuffle_vec<T: Clone>(mut items: Vec<T>) -> (r: Vec<T>)
        ensures
            r@.to_multiset() == items@.to_multiset(),
            r@.len() == items@.len(),
    {
        let slice = items.as_mut_slice();
        let mut rng = rand::rng();
        slice.shuffle(&mut rng);
        items
    }

    /// Relies on rand::random_range: a value drawn uniformly from the given
    /// range, here `0..n`; the range must be nonempty (rand panics on an
    /// empty one) and the result lies strictly below `n`.
    #[verifier::external_body]
    pub(crate) fn rand_below(n: u64) -> (r: u64)
        requires
            n > 0,
        ensures
            r < n,
    {
        rand::random_range(0..n)
    }
}

} // verus!
