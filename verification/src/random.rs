//! The random source of the search, and the draws that the engine makes
//! from it.
//!
//! The generator is `rand::rngs::StdRng`. A caller seeds it, and the same
//! seed gives the same search.

use rand::distributions::WeightedError;
use rand::rngs::StdRng;
use rand::Rng;
use vstd::prelude::*;

verus! {

#[verifier::external_type_specification]
#[verifier::external_body]
pub struct ExStdRng(StdRng);

#[verifier::external_type_specification]
#[verifier::external_body]
pub struct ExWeightedError(WeightedError);

/// Draws a number between zero and `max`, both included.
///
/// Calls `rand::Rng::gen_range` on the range `0..=max`, which is never
/// empty. Trusted: the number drawn lies in the range.
#[verifier::external_body]
pub(crate) fn draw_up_to(rng: &mut StdRng, max: usize) -> (drawn: usize)
    ensures
        drawn <= max,
{
    rng.gen_range(0..=max)
}

/// Decides with probability `numerator / denominator`.
///
/// Calls `rand::Rng::gen_ratio`, which panics unless the fraction lies
/// between zero and one. Trusted: a fraction of one always decides yes, a
/// fraction of zero always no.
#[verifier::external_body]
pub(crate) fn chance(rng: &mut StdRng, numerator: u32, denominator: u32) -> (hit: bool)
    requires
        0 < denominator,
        numerator <= denominator,
    ensures
        numerator == denominator ==> hit,
        numerator == 0 ==> !hit,
{
    rng.gen_ratio(numerator, denominator)
}

/// Picks two different positions of `weights`, each with a likelihood in
/// proportion to its weight.
///
/// Calls `rand::seq::index::sample_weighted` for two of `weights.len()`
/// indices, which panics if there are fewer than two. It fails only on a
/// weight that is negative or no number, which an unsigned integer never is.
/// Trusted: it hands out two indices, and they are different and inside
/// `weights`.
#[verifier::external_body]
pub(crate) fn pick_two_weighted(rng: &mut StdRng, weights: &Vec<u32>) -> (picked: Result<
    (usize, usize),
    WeightedError,
>)
    requires
        weights@.len() >= 2,
    ensures
        picked is Ok,
        picked matches Ok((first, second)) ==> first != second && first < weights@.len() && second
            < weights@.len(),
{
    let chosen = rand::seq::index::sample_weighted(rng, weights.len(), |at| weights[at], 2)?;
    Ok((chosen.index(0), chosen.index(1)))
}

/// The city that a draw among all cities but `first` stands for: the draw
/// itself below `first`, the next city from `first` on.
pub open spec fn other_city_of(first: int, drawn: int) -> int {
    if drawn < first {
        drawn
    } else {
        drawn + 1
    }
}

/// Turns a draw among all cities but `first` into a city other than `first`.
pub fn other_city(first: usize, drawn: usize) -> (city: usize)
    requires
        drawn < usize::MAX,
    ensures
        city == other_city_of(first as int, drawn as int),
        city != first,
{
    if drawn < first {
        drawn
    } else {
        drawn + 1
    }
}

} // verus!
