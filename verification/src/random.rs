//! The random numbers that the game and the brain draw.

use rand::seq::SliceRandom;
use rand::Rng;
use vstd::prelude::*;

verus! {

/// A number drawn uniformly from `0..n` by `rand::Rng::gen_range` on the
/// thread's generator (`rand::thread_rng`). Its contract claims only that the
/// number lies in `0..n`; `gen_range` panics on an empty range, which the
/// `requires` leaves out.
#[verifier::external_body]
pub(crate) fn gen_index(n: usize) -> (r: usize)
    requires
        n > 0,
    ensures
        r < n,
{
    rand::thread_rng().gen_range(0..n)
}

/// One of `items`, drawn by `rand::seq::SliceRandom::choose` on the thread's
/// generator. The crate returns `None` only for an empty slice, which the
/// `requires` leaves out; the contract claims that the item is one of
/// `items`, not which one (the draw is uniform by the crate's documentation).
#[verifier::external_body]
pub(crate) fn choose_item(items: &Vec<usize>) -> (r: usize)
    requires
        items.len() > 0,
    ensures
        items@.contains(r),
{
    *items.choose(&mut rand::thread_rng()).unwrap()
}

} // verus!
