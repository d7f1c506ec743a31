//! Randomness, behind trusted wrappers around the `rand` crate.
//!
//! Every random choice the generator makes — seed cells, the frontier cell
//! to expand, the neighbor to assign, the ocean plates — goes through one
//! of these two functions. Their contracts state only what holds of every
//! outcome (a range, distinctness), never which value comes back.

use vstd::prelude::*;

verus! {

/// Relies on `rand::Rng::random_range` over `0..n`: the sampled value lies
/// in the (non-empty) range. `random_range` panics on an empty range, so
/// `n > 0` is required.
#[verifier::external_body]
pub(crate) fn rand_index(n: usize) -> (r: usize)
    requires
        n > 0,
    ensures
        r < n,
{
    rand::Rng::random_range(&mut rand::rng(), 0..n)
}

/// Relies on `rand::seq::IteratorRandom::choose_multiple` over `0..n`:
/// reservoir sampling keeps `min(k, n)` of the iterator's elements, each
/// element at most once, so the result holds that many pairwise-distinct
/// values below `n`.
#[verifier::external_body]
pub(crate) fn sample_distinct(n: usize, k: usize) -> (r: Vec<usize>)
    ensures
        r@.len() == if k <= n {
            k as int
        } else {
            n as int
        },
        forall|i: int| 0 <= i < r@.len() ==> r@[i] < n,
        forall|i: int, j: int| 0 <= i < j < r@.len() ==> r@[i] != r@[j],
{
    rand::seq::IteratorRandom::choose_multiple(0..n, &mut rand::rng(), k)
}

} // verus!
