//! Random numbers.
use rand::Rng;
use vstd::prelude::*;

verus! {

/// `Rng::gen_range` of `rand::thread_rng()`, on the range from `low` to
/// `high`, both included: the number lies in the range. Which one it is, is
/// chance. An empty range would panic.
#[verifier::external_body]
pub(crate) fn random_in(low: u64, high: u64) -> (number: u64)
    requires
        low <= high,
    ensures
        low <= number <= high,
{
    rand::thread_rng().gen_range(low..=high)
}

} // verus!
