//! The wall clock, as nanoseconds since the Unix epoch.

use std::time::{Duration, SystemTime, SystemTimeError};
use vstd::prelude::*;

verus! {

/// `std::time::SystemTime`, carried and never looked into.
#[verifier::external_type_specification]
#[verifier::external_body]
pub struct ExSystemTime(SystemTime);

/// `std::time::SystemTimeError`, carried and never looked into.
#[verifier::external_type_specification]
#[verifier::external_body]
pub struct ExSystemTimeError(SystemTimeError);

/// What a `Duration` holds: its length in nanoseconds.
pub uninterp spec fn duration_nanos(d: Duration) -> nat;

/// What a `SystemTime` holds: its distance in nanoseconds from the Unix epoch,
/// below zero before it.
pub uninterp spec fn clock_nanos(t: SystemTime) -> int;

/// `SystemTime::now` reads the wall clock. Nothing is claimed of what it
/// shows.
pub assume_specification[ SystemTime::now ]() -> SystemTime
;

/// `Duration::as_nanos` returns the total number of nanoseconds in the
/// duration.
pub assume_specification[ Duration::as_nanos ](d: &Duration) -> (n: u128)
    ensures
        n == duration_nanos(*d),
;

/// `Duration::from_millis` makes a duration of that many milliseconds.
pub assume_specification[ Duration::from_millis ](millis: u64) -> (d: Duration)
    ensures
        duration_nanos(d) == millis * 1_000_000,
;

/// `SystemTime::duration_since`, from the Unix epoch: the time since then. It
/// fails for a time before the epoch.
#[verifier::external_body]
fn since_epoch(time: SystemTime) -> (d: Result<Duration, SystemTimeError>)
    ensures
        d is Ok <==> clock_nanos(time) >= 0,
        d matches Ok(elapsed) ==> duration_nanos(elapsed) == clock_nanos(time),
{
    time.duration_since(SystemTime::UNIX_EPOCH)
}

/// The lower 64 bits of a count of nanoseconds.
///
/// They hold every count up to the year 2554 unchanged.
pub fn timestamp_from_nanos(nanos: u128) -> (ts: u64)
    ensures
        ts == nanos % 0x1_0000_0000_0000_0000,
{
    (nanos % 0x1_0000_0000_0000_0000) as u64
}

/// What becomes of a reading of the clock: the lower 64 bits of the nanoseconds
/// since the Unix epoch, or nothing before it.
pub open spec fn stamped(t: SystemTime, ts: Option<u64>) -> bool {
    &&& ts is Some <==> clock_nanos(t) >= 0
    &&& ts matches Some(n) ==> n == clock_nanos(t) % 0x1_0000_0000_0000_0000
}

/// A time as u64 nanoseconds since the Unix epoch, or `None` for one before it.
pub fn timestamp_at(time: SystemTime) -> (ts: Option<u64>)
    ensures
        stamped(time, ts),
{
    match since_epoch(time) {
        Ok(elapsed) => Some(timestamp_from_nanos(elapsed.as_nanos())),
        Err(_) => None,
    }
}

/// Snaps current time as u64 nanoseconds since Unix epoch, or `None` where
/// the system clock stands before the epoch.
///
/// Two calls may differ, and nothing is promised of what the clock shows.
pub fn snap_timestamp() -> (ts: Option<u64>)
    ensures
        exists|t: SystemTime| #[trigger] stamped(t, ts),
{
    timestamp_at(SystemTime::now())
}

/// A time is stamped exactly where it does not lie before the epoch, with the
/// nanoseconds since then, of which 64 bits are kept.
pub proof fn law_stamps(t: SystemTime, ts: Option<u64>)
    ensures
        clock_nanos(t) < 0 ==> (stamped(t, ts) <==> ts is None),
        clock_nanos(t) >= 0 ==> (stamped(t, ts) <==> ts is Some && ts.unwrap() == clock_nanos(t)
            % 0x1_0000_0000_0000_0000),
        0 <= clock_nanos(t) <= u64::MAX && stamped(t, ts) ==> ts == Some(clock_nanos(t) as u64),
{
}

}
