//! Time as the library counts it: nanoseconds on a clock of the caller's
//! choosing.

use vstd::prelude::*;

verus! {

/// The number of nanoseconds in a millisecond.
pub const NANOS_PER_MILLI: u128 = 1_000_000;

/// The time from `then` to `now`, or zero if `then` is not in the past.
pub open spec fn elapsed(now: u128, then: u128) -> u128 {
    if now >= then {
        (now - then) as u128
    } else {
        0
    }
}

/// The time from `then` to `now`, or zero if `then` is not in the past.
pub fn elapsed_between(now: u128, then: u128) -> (age: u128)
    ensures
        age == elapsed(now, then),
{
    if now >= then {
        now - then
    } else {
        0
    }
}

} // verus!
