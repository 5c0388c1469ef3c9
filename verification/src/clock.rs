//! The time of day, and time that passes.

use vstd::prelude::*;

verus! {

/// No time of day is this many seconds or more after 1970-01-01 00:00:00 UTC: the
/// days up to then cannot be numbered in 32 bits.
pub const TIME_LIMIT: i64 = 185_542_587_187_200;

/// Seconds since 1970-01-01 00:00:00 UTC, as `chrono::Utc::now` reports them and
/// `chrono::DateTime::timestamp` counts them.
///
/// Claimed of the result: it is not negative, because `now` refuses a clock that
/// stands before 1970 by a panic; and it lies within the days that the crate can
/// number in 32 bits, because `now` refuses any other by a panic. Which second it
/// is depends on the machine and is left unsaid.
#[verifier::external_body]
pub(crate) fn unix_time() -> (seconds: i64)
    ensures
        0 <= seconds < TIME_LIMIT,
{
    chrono::Utc::now().timestamp()
}

/// The time from `then` to `now`; none if the clock has not moved on.
pub open spec fn elapsed(then: u64, now: u64) -> int {
    if now >= then {
        now - then
    } else {
        0
    }
}

/// The time from `then` to `now`; none if the clock has not moved on.
pub fn time_between(then: u64, now: u64) -> (time: u64)
    ensures
        time == elapsed(then, now),
{
    if now >= then {
        now - then
    } else {
        0
    }
}

} // verus!
