//! The one source of chance: a number drawn from the thread's generator.

use rand::Rng;
use vstd::prelude::*;

verus! {

/// Calls `Rng::gen_range(low, high)` of the `rand` crate on the generator
/// that `rand::thread_rng()` gives. Not proved: that the number drawn lies
/// in `low..high`, the upper end excluded, as `gen_range` documents. The
/// call panics where `low >= high`, hence the `requires`.
#[verifier::external_body]
pub(crate) fn random_in_range(low: u64, high: u64) -> (r: u64)
    requires
        low < high,
    ensures
        low <= r < high,
{
    rand::thread_rng().gen_range(low, high)
}

} // verus!
