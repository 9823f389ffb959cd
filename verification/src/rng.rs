//! The engine's single source of randomness: drawing an index for the
//! initial velocity direction of each particle.
use vstd::prelude::*;

verus! {

/// Relies on rand's `Rng::gen_range` over `thread_rng`: returns an index
/// drawn from `[0, n)`. Nothing beyond the range is promised of the value.
#[verifier::external_body]
pub(crate) fn random_below(n: usize) -> (r: usize)
    requires
        n >= 1,
    ensures
        r < n,
{
    rand::Rng::gen_range(&mut rand::thread_rng(), 0..n)
}

} // verus!
