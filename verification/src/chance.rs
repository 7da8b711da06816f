//! Random numbers.

use rand::Rng;
use vstd::prelude::*;

verus! {

/// `Rng::gen_range` of the thread's generator of the `rand` crate, over
/// `0..bound`: nothing is claimed but the range.
#[verifier::external_body]
pub(crate) fn random_below(bound: u128) -> (r: u128)
    requires
        bound > 0,
    ensures
        r < bound,
{
    rand::thread_rng().gen_range(0..bound)
}

/// `Rng::gen` of the thread's generator of the `rand` crate: any number of 64
/// bits.
#[verifier::external_body]
pub(crate) fn random_i64() -> (r: i64) {
    rand::thread_rng().gen::<i64>()
}

} // verus!
