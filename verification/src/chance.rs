//! The random source. Nothing here is proved: each function hands a question
//! to the `rand` crate, and its contract states only what holds of every
//! answer.

use rand::seq::SliceRandom;
use rand::Rng;
use vstd::prelude::*;

verus! {

/// Calls `SliceRandom::choose` on the items with the thread-local generator of
/// `rand`. The contract claims what that method documents: no item comes back
/// from an empty list, and from any other list the answer is one of its items.
/// Which one is left open.
#[verifier::external_body]
pub(crate) fn pick<T: Copy>(items: &Vec<T>) -> (r: Option<T>)
    ensures
        items@.len() == 0 ==> r is None,
        items@.len() > 0 ==> r is Some && items@.contains(r->0),
{
    let mut rng = rand::thread_rng();
    items.choose(&mut rng).copied()
}

/// Calls `Rng::gen_range` with the half-open range from zero to `bound` on the
/// thread-local generator of `rand`. The method panics on an empty range, so
/// `bound` must be positive; the contract claims that the answer lies in the
/// range, and nothing about which value it is.
#[verifier::external_body]
pub(crate) fn draw_below(bound: u32) -> (r: u32)
    requires
        bound > 0,
    ensures
        r < bound,
{
    rand::thread_rng().gen_range(0..bound)
}

} // verus!
