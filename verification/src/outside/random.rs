//! Random draws from the thread-local generator of the `rand` crate.

use vstd::prelude::*;
use rand::Rng;

verus! {

/// `Rng::gen_range` on `rand::thread_rng()`, for the inclusive range from
/// zero to `bound`, which is never empty. Trusted: the draw lies in the
/// range. Which value comes is left open.
#[verifier::external_body]
pub(crate) fn random_up_to(bound: u64) -> (r: u64)
    ensures
        r <= bound,
{
    rand::thread_rng().gen_range(0..=bound)
}

} // verus!
