//! Uniform draws from rand's seeded generator, for the searches and the tuner.

use vstd::prelude::*;
use rand::Rng;
use rand::rngs::StdRng;

verus! {

#[verifier::external_type_specification]
#[verifier::external_body]
pub struct ExStdRng(StdRng);

/// rand's `Rng::random_range` over `0..n`. Its documentation promises a value in the
/// range (drawn uniformly) and a panic on an empty range; which value comes out
/// depends on the generator's state, so nothing more is said of it.
#[verifier::external_body]
pub(crate) fn draw_below(rng: &mut StdRng, n: usize) -> (r: usize)
    requires
        n > 0,
    ensures
        r < n,
{
    rng.random_range(0..n)
}

} // verus!
