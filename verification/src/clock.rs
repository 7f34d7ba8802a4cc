//! The time of day.

use vstd::prelude::*;

verus! {

/// How many microseconds a second has.
pub const MICROS: u128 = 1_000_000;

/// Reads the system clock with `std::time::SystemTime::now` and counts the
/// microseconds since the start of 1970, or gives none where the clock stands
/// before that. Of the reading itself nothing is promised but that its whole
/// seconds fit a `u64`, which is how `std::time::Duration` keeps them.
#[verifier::external_body]
fn read_clock() -> (r: Option<u128>)
    ensures
        r matches Some(t) ==> t / MICROS <= u64::MAX,
{
    std::time::SystemTime::now().duration_since(std::time::UNIX_EPOCH).ok().map(|d| d.as_micros())
}

/// Microseconds since the start of 1970. A clock that stands before that counts
/// as standing at it: see [`counted`]. Of the reading itself nothing more can be
/// promised.
pub fn micros_now() -> (r: u128)
    ensures
        r / MICROS <= u64::MAX,
{
    counted(read_clock())
}

/// The microseconds that a reading of the clock stands for: none where the clock
/// stands before the start of 1970.
pub fn counted(reading: Option<u128>) -> (r: u128)
    ensures
        r == match reading {
            Some(t) => t,
            None => 0,
        },
{
    match reading {
        Some(t) => t,
        None => 0,
    }
}

/// The whole seconds in a count of microseconds.
pub fn whole_seconds(micros: u128) -> (r: u64)
    requires
        micros / MICROS <= u64::MAX,
    ensures
        r == micros / MICROS,
{
    (micros / MICROS) as u64
}

/// Whole seconds since the start of 1970. Of the reading itself nothing can be
/// promised.
pub fn secs_now() -> (r: u64)
{
    whole_seconds(micros_now())
}

} // verus!
