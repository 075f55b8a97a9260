//! Random numbers for the fields of a probe that carry no meaning.

use vstd::prelude::*;
use rand::Rng;

verus! {

/// Calls `rand::random::<u16>()`. Any 16-bit value may come back, so nothing
/// is stated of it.
#[verifier::external_body]
pub(crate) fn random_u16() -> (x: u16) {
    rand::random()
}

/// Calls `Rng::gen_range` of `rand::thread_rng()` on the inclusive range from
/// `low` to `high`, which returns a value of that range and panics on an
/// empty one.
#[verifier::external_body]
pub(crate) fn random_between(low: u16, high: u16) -> (x: u16)
    requires
        low <= high,
    ensures
        low <= x <= high,
{
    rand::thread_rng().gen_range(low..=high)
}

} // verus!
