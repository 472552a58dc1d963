use vstd::prelude::*;

verus! {

/// The sum of `w`.
pub open spec fn weight_total(w: Seq<u128>) -> int
    decreases w.len(),
{
    if w.len() == 0 {
        0
    } else {
        weight_total(w.drop_last()) + w.last()
    }
}

/// Draws an index at random, each with a probability proportional to its
/// weight.
///
/// Relies on rand's `WeightedIndex::new` and its `Distribution::sample` with
/// `thread_rng`: the draw lands on an index of positive weight. `new` fails
/// only on an empty list, a zero total, or an overflowing sum, which the
/// precondition rules out.
#[verifier::external_body]
pub(crate) fn draw_weighted_index(weights: &Vec<u128>) -> (r: usize)
    requires
        exists|i: int| 0 <= i < weights@.len() && weights@[i] > 0,
        weight_total(weights@) <= u128::MAX,
    ensures
        r < weights@.len(),
        weights@[r as int] > 0,
{
    let dist = rand::distributions::WeightedIndex::new(weights).unwrap();
    rand::distributions::Distribution::sample(&dist, &mut rand::thread_rng())
}

} // verus!
