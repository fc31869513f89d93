use vstd::prelude::*;
use crate::math::sum64;
use rand::rngs::StdRng;

verus! {

#[verifier::external_type_specification]
#[verifier::external_body]
pub struct ExStdRng(StdRng);

/// Relies on rand::SeedableRng::seed_from_u64: builds a deterministic
/// pseudo-random generator from the given seed. Nothing is assumed of the
/// values it will produce.
#[verifier::external_body]
pub fn rng_from_seed(seed: u64) -> StdRng {
    <StdRng as rand::SeedableRng>::seed_from_u64(seed)
}

/// Relies on rand::distributions::WeightedIndex: `new` fails exactly when the
/// total weight is zero (an unsigned weight is never negative, and an empty
/// vector totals zero), and `sample` returns an index drawn with probability
/// proportional to its weight, so an index of weight zero is never returned.
/// The total must fit the word, as `new` sums the weights.
#[verifier::external_body]
pub fn sample_weighted(rng: &mut StdRng, weights: &Vec<u64>) -> (r: Option<usize>)
    requires
        sum64(weights@) <= u64::MAX,
    ensures
        match r {
            Option::Some(i) => i < weights.len() && weights@[i as int] > 0,
            Option::None => sum64(weights@) == 0,
        },
        sum64(weights@) > 0 ==> r is Some,
{
    match rand::distributions::WeightedIndex::new(weights.iter()) {
        Ok(dist) => Option::Some(rand::distributions::Distribution::sample(&dist, rng)),
        Err(_) => Option::None,
    }
}

} // verus!
