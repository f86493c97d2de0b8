//! The one place where chance enters the simulation.

use rand::Rng;
use vstd::prelude::*;

verus! {

/// A number drawn uniformly from `0..bound`.
///
/// Trusted: calls `gen_range(0..bound)` of the `rand` crate on its
/// thread-local generator. The crate's source shows that the call panics on
/// an empty range, which the precondition rules out, and that the drawn
/// number lies inside the range. Nothing else is claimed of it: two calls
/// with the same bound may differ. The generator is seeded by the system on
/// first use and panics where the system cannot seed it; no argument of
/// this function decides that.
#[verifier::external_body]
pub(crate) fn random_below(bound: i32) -> (drawn: i32)
    requires
        bound > 0,
    ensures
        0 <= drawn < bound,
{
    rand::thread_rng().gen_range(0..bound)
}

} // verus!
