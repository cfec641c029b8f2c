//! The source of chance behind enemy generation.

use rand::Rng;
use rand::rngs::StdRng;
use vstd::prelude::*;

verus! {

/// The seedable generator of the `rand` crate, carried through as an opaque
/// value.
#[verifier::external_type_specification]
#[verifier::external_body]
pub struct ExStdRng(rand::rngs::StdRng);

/// Draws a number with `Rng::gen_range` over the inclusive range
/// `low..=high`. The range must not be empty, since `gen_range` panics on an
/// empty one. All that is claimed of the outcome is that it lies in the
/// range; which number comes depends on the generator's state.
#[verifier::external_body]
pub(crate) fn roll(rng: &mut StdRng, low: u32, high: u32) -> (outcome: u32)
    requires
        low <= high,
    ensures
        low <= outcome <= high,
{
    rng.gen_range(low..=high)
}

} // verus!
