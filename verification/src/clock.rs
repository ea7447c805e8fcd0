//! Reading the clock, and the time between two readings.

use vstd::prelude::*;

verus! {

/// A reading of the wall clock: whole seconds since 1970-01-01T00:00:00Z and
/// the nanoseconds into the second.
#[derive(Clone, Copy, Debug, PartialEq, Eq, Structural)]
pub struct Timestamp {
    pub sec: i64,
    pub nsec: i32,
}

/// Reads the wall clock with `time::get_time`. Nothing is claimed of the
/// reading but what that function checks before it returns: the nanoseconds
/// lie within one second. Two readings need not be in order: the wall clock
/// can be set back.
#[verifier::external_body]
pub(crate) fn now() -> (t: Timestamp)
    ensures
        0 <= t.nsec < 1_000_000_000,
{
    let t = time::get_time();
    Timestamp { sec: t.sec, nsec: t.nsec }
}

/// The nanoseconds from `start` to `end`; negative where `end` is the
/// earlier.
pub open spec fn nanos_between(start: Timestamp, end: Timestamp) -> int {
    (end.sec - start.sec) * 1_000_000_000 + (end.nsec - start.nsec)
}

/// The whole microseconds from `start` to `end`: 0 where `end` is not the
/// later, and the largest number that fits where the span does not.
pub open spec fn micros_between(start: Timestamp, end: Timestamp) -> u64 {
    let ns = nanos_between(start, end);
    if ns <= 0 {
        0
    } else if ns / 1000 > u64::MAX {
        u64::MAX
    } else {
        (ns / 1000) as u64
    }
}

/// The whole microseconds that passed from `start` to `end`.
pub fn elapsed_micros(start: Timestamp, end: Timestamp) -> (micros: u64)
    ensures
        micros == micros_between(start, end),
{
    let seconds: i128 = end.sec as i128 - start.sec as i128;
    let ns: i128 = seconds * 1_000_000_000 + (end.nsec as i128 - start.nsec as i128);
    if ns <= 0 {
        0
    } else if ns / 1000 > u64::MAX as i128 {
        u64::MAX
    } else {
        (ns / 1000) as u64
    }
}

} // verus!
