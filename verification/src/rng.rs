//! The engine's only sources of randomness, as thin trusted wrappers over the
//! `rand` crate.  Every draw happens on the calling task's own thread-local
//! generator, so no generator state is ever shared between tasks.

use vstd::prelude::*;

verus! {

/// Relies on `rand::Rng::gen_range` over `0..n`: a draw from the half-open
/// range, which panics only when the range is empty (ruled out here).
#[verifier::external_body]
pub(crate) fn rand_index(n: usize) -> (r: usize)
    requires
        n > 0,
    ensures
        r < n,
{
    rand::Rng::gen_range(&mut rand::thread_rng(), 0..n)
}

/// A fitness-roulette distribution over parent indices.  The struct only
/// carries `rand::distributions::WeightedIndex<u64>`, whose declaration Verus
/// refuses because of the outside trait bound on its type parameter.
#[verifier::external_body]
pub struct ParentSampler {
    dist: rand::distributions::WeightedIndex<u64>,
}

/// `rand::distributions::WeightedError`, the error type of `WeightedIndex::new`.
#[verifier::external_type_specification]
#[verifier::external_body]
pub struct ExWeightedError(rand::distributions::WeightedError);

/// The weights a `ParentSampler` was built over.
pub uninterp spec fn sampler_weights(d: ParentSampler) -> Seq<u64>;

/// The sum of a sequence of weights.
pub open spec fn weight_sum(s: Seq<u64>) -> int
    decreases s.len(),
{
    if s.len() == 0 {
        0
    } else {
        weight_sum(s.drop_last()) + s.last()
    }
}

/// Relies on `rand::distributions::WeightedIndex::new`: it returns `Ok` on a
/// non-empty weight list whose total is positive (unsigned weights cannot be
/// invalid), `Err(NoItem)` on an empty list and `Err(AllWeightsZero)` when
/// every weight is zero.  Its running total must not overflow, which the
/// precondition on the sum rules out.
#[verifier::external_body]
pub(crate) fn sampler_new(weights: &Vec<u64>) -> (r: Result<
    ParentSampler,
    rand::distributions::WeightedError,
>)
    requires
        weight_sum(weights@) <= u64::MAX,
    ensures
        match r {
            Ok(d) => sampler_weights(d) == weights@ && weights@.len() > 0 && exists|i: int|
                0 <= i < weights@.len() && weights@[i] > 0,
            Err(_) => weights@.len() == 0 || forall|i: int|
                0 <= i < weights@.len() ==> weights@[i] == 0,
        },
{
    match rand::distributions::WeightedIndex::new(weights) {
        Ok(dist) => Ok(ParentSampler { dist }),
        Err(e) => Err(e),
    }
}

/// Relies on `Distribution::sample` for `WeightedIndex`: the drawn index is
/// in range and its weight is positive (an item of weight zero is never
/// selected, as the binary search over the cumulative weights shows).
#[verifier::external_body]
pub(crate) fn sampler_draw(d: &ParentSampler) -> (r: usize)
    ensures
        r < sampler_weights(*d).len(),
        sampler_weights(*d)[r as int] > 0,
{
    rand::distributions::Distribution::sample(&d.dist, &mut rand::thread_rng())
}

} // verus!
