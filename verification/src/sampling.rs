//! Random placement, drawn from the `rand` crate.

use vstd::prelude::*;

verus! {

/// Tells whether `picks` are pairwise different indices below `length`.
pub open spec fn distinct_below(picks: Seq<usize>, length: int) -> bool {
    &&& forall|i: int| 0 <= i < picks.len() ==> (#[trigger] picks[i]) < length
    &&& forall|i: int, j: int| 0 <= i < j < picks.len() ==> picks[i] != picks[j]
}

/// `rand::rngs::ThreadRng`, the generator that `rand::thread_rng` hands out.
///
/// Trusted: nothing is claimed of it; it is carried through to the sampler
/// as it is.
#[verifier::external_type_specification]
#[verifier::external_body]
pub struct ExThreadRng(rand::rngs::ThreadRng);

/// `rand::thread_rng`: the generator of the current thread.
///
/// Trusted: nothing is claimed of the generator that comes back. The call
/// panics only if the operating system cannot seed the generator.
pub assume_specification[ rand::thread_rng ]() -> (rng: rand::rngs::ThreadRng);

/// Calls `rand::seq::index::sample` on the generator of the current thread
/// and collects what it drew with `IndexVec::into_vec`.
///
/// Trusted: the call hands back exactly `amount` indices, each below
/// `length`, no two of them equal. Which indices they are depends on the
/// generator and is left open. The call panics when `amount > length`, and
/// for a `length` beyond `u32::MAX` it asserts `amount < length`; the
/// precondition rules both out.
#[verifier::external_body]
pub(crate) fn sample_indices(
    rng: &mut rand::rngs::ThreadRng,
    length: usize,
    amount: usize,
) -> (picks: Vec<usize>)
    requires
        amount <= length,
        length <= u32::MAX || amount < length,
    ensures
        picks@.len() == amount,
        distinct_below(picks@, length as int),
{
    rand::seq::index::sample(rng, length, amount).into_vec()
}

/// Lists every index below `length`, in order.
fn every_index(length: usize) -> (picks: Vec<usize>)
    ensures
        picks@.len() == length,
        forall|i: int| 0 <= i < length ==> picks@[i] == i,
        distinct_below(picks@, length as int),
{
    let mut picks: Vec<usize> = Vec::new();
    let mut i: usize = 0;
    while i < length
        invariant
            i <= length,
            picks@.len() == i,
            forall|j: int| 0 <= j < i ==> picks@[j] == j,
        decreases length - i,
    {
        picks.push(i);
        i += 1;
    }
    picks
}

/// Draws `amount` different indices below `length` from `rng`.
///
/// Where all the indices of a range too long for the sampler are asked for,
/// there is nothing to draw: they are listed.
pub fn pick_indices(
    rng: &mut rand::rngs::ThreadRng,
    length: usize,
    amount: usize,
) -> (picks: Vec<usize>)
    requires
        amount <= length,
    ensures
        picks@.len() == amount,
        distinct_below(picks@, length as int),
{
    if amount == length && length > u32::MAX as usize {
        every_index(length)
    } else {
        sample_indices(rng, length, amount)
    }
}

} // verus!
