//! The random source of the simulation.
//!
//! Randomness comes from an injected `rand::rngs::StdRng`, so that a caller who
//! seeds the generator gets a reproducible run. The generator is opaque to the
//! verifier; the two functions below are the only places where it is asked for
//! a value, and their contracts are trusted rather than proved.

use rand::Rng;
use vstd::prelude::*;

verus! {

/// `rand::rngs::StdRng`, carried through verified code as an opaque value.
#[verifier::external_type_specification]
#[verifier::external_body]
pub struct ExStdRng(rand::rngs::StdRng);

/// Draws an integer from the inclusive range `low..=high` with
/// `rand::Rng::gen_range`.
///
/// Trusted: `gen_range` panics only on an empty range, which `requires`
/// excludes, and every sample it returns lies within the range. Nothing is
/// claimed about which value of the range comes back.
#[verifier::external_body]
pub(crate) fn sample_inclusive(rng: &mut rand::rngs::StdRng, low: i32, high: i32) -> (r: i32)
    requires
        low <= high,
    ensures
        low <= r <= high,
{
    rng.gen_range(low..=high)
}

/// Draws a boolean that is true with probability `numerator / denominator`
/// with `rand::Rng::gen_ratio`.
///
/// Trusted: `gen_ratio` panics only if the denominator is zero or smaller than
/// the numerator, which `requires` excludes; a ratio of zero always gives
/// `false` and a ratio of one always gives `true`. Nothing is claimed about
/// the outcome for ratios in between.
#[verifier::external_body]
pub(crate) fn sample_ratio(rng: &mut rand::rngs::StdRng, numerator: u32, denominator: u32) -> (r: bool)
    requires
        0 < denominator,
        numerator <= denominator,
    ensures
        numerator == 0 ==> !r,
        numerator == denominator ==> r,
{
    rng.gen_ratio(numerator, denominator)
}

} // verus!
