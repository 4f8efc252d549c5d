//! The one crossing into the process-wide random source.

use vstd::prelude::*;

use rand::Rng;

verus! {

/// Relies on rand's `thread_rng` and `Rng::gen_ratio`: draws a boolean that
/// is true with probability `numerator / denominator`. Nothing is promised
/// of the outcome. `gen_ratio` panics when the denominator is zero or the
/// ratio exceeds one, so those inputs are excluded.
#[verifier::external_body]
pub(crate) fn random_bool_ratio(numerator: u32, denominator: u32) -> bool
    requires
        0 < denominator,
        numerator <= denominator,
{
    rand::thread_rng().gen_ratio(numerator, denominator)
}

} // verus!
