//! The random source of the level builder.
//!
//! Nothing here is proved: each function hands one request to the `rand`
//! crate, and its contract states what that crate documents of every outcome.

use vstd::prelude::*;
use rand::rngs::StdRng;
use rand::Rng;

verus! {

/// `rand::rngs::StdRng`, the generator that the level builder draws from.
/// Its state is not modelled.
#[verifier::external_type_specification]
#[verifier::external_body]
pub struct ExStdRng(StdRng);

/// `Rng::gen_range` on `i32`: some number from `low` up to, but not
/// including, `high`. The call panics on an empty range, which the
/// precondition rules out.
#[verifier::external_body]
pub(crate) fn random_range(rng: &mut StdRng, low: i32, high: i32) -> (n: i32)
    requires
        low < high,
    ensures
        low <= n < high,
{
    rng.gen_range(low, high)
}

/// `Rng::gen` on `bool`: a fair coin. Nothing is claimed of the outcome.
#[verifier::external_body]
pub(crate) fn random_bool(rng: &mut StdRng) -> bool {
    rng.gen()
}

/// `Rng::gen_ratio`: `true` with a chance of `numerator` in `denominator`.
/// The call panics when the denominator is zero or less than the numerator,
/// which the precondition rules out. Nothing is claimed of the outcome.
#[verifier::external_body]
pub(crate) fn random_ratio(rng: &mut StdRng, numerator: u32, denominator: u32) -> bool
    requires
        0 < denominator,
        numerator <= denominator,
{
    rng.gen_ratio(numerator, denominator)
}

} // verus!
