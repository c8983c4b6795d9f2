//! Wall-clock timestamps carried by the persisted records.

use std::time::{Duration, SystemTime, SystemTimeError, UNIX_EPOCH};
use vstd::prelude::*;

verus! {

/// A UTC instant: whole seconds since the Unix epoch (negative before it)
/// and the nanoseconds past that second.
#[derive(Debug, Clone, Copy, PartialEq, Eq, Structural)]
pub struct Timestamp {
    /// Seconds since 1970-01-01T00:00:00Z, rounded down.
    pub secs: i64,
    /// Nanoseconds within the second (above 999_999_999 only during a leap second).
    pub nanos: u32,
}

impl Timestamp {
    /// The Unix epoch, 1970-01-01T00:00:00Z.
    pub fn unix_epoch() -> (t: Timestamp)
        ensures
            t.secs == 0 && t.nanos == 0,
    {
        Timestamp { secs: 0, nanos: 0 }
    }
}

#[verifier::external_type_specification]
#[verifier::external_body]
pub struct ExSystemTime(SystemTime);

#[verifier::external_type_specification]
#[verifier::external_body]
pub struct ExSystemTimeError(SystemTimeError);

/// std's `SystemTime::now`. Nothing is claimed of the value: it comes from
/// the system clock.
#[verifier::external_body]
fn system_now() -> SystemTime {
    SystemTime::now()
}

/// std's `SystemTime::duration_since(UNIX_EPOCH)`: `Ok` with the time since
/// the epoch, or `Err` when the clock reads before it. Nothing is claimed of
/// which: it depends on the clock reading.
#[verifier::external_body]
fn since_unix_epoch(t: &SystemTime) -> Result<Duration, SystemTimeError> {
    t.duration_since(UNIX_EPOCH)
}

/// std's `SystemTimeError::duration`: how far before the epoch the clock read.
#[verifier::external_body]
fn error_duration(e: &SystemTimeError) -> Duration {
    e.duration()
}

/// std's `Duration::as_secs`: the whole seconds of `d`.
#[verifier::external_body]
fn duration_secs(d: &Duration) -> u64 {
    d.as_secs()
}

/// std's `Duration::subsec_nanos`: the nanoseconds past the whole seconds,
/// which std documents as always below one billion.
#[verifier::external_body]
fn duration_subsec_nanos(d: &Duration) -> (n: u32)
    ensures
        n < 1_000_000_000,
{
    d.subsec_nanos()
}

/// The instant `secs` seconds and `nanos` nanoseconds after the epoch
/// (`before == false`) or before it (`before == true`), rounded down to a
/// whole second plus nanoseconds, with seconds saturated to the `i64` range.
pub open spec fn timestamp_from(before: bool, secs: u64, nanos: u32) -> Timestamp {
    if !before {
        Timestamp { secs: if secs > i64::MAX { i64::MAX } else { secs as i64 }, nanos }
    } else if nanos == 0 {
        Timestamp { secs: if secs > i64::MAX { i64::MIN } else { -secs as i64 }, nanos: 0 }
    } else {
        Timestamp {
            secs: if secs >= i64::MAX { i64::MIN } else { (-secs - 1) as i64 },
            nanos: (1_000_000_000 - nanos) as u32,
        }
    }
}

/// Converts a distance from the epoch into a [`Timestamp`] (see
/// [`timestamp_from`]).
pub fn timestamp_from_parts(before: bool, secs: u64, nanos: u32) -> (t: Timestamp)
    requires
        nanos < 1_000_000_000,
    ensures
        t == timestamp_from(before, secs, nanos),
        t.nanos < 1_000_000_000,
{
    if !before {
        let s: i64 = if secs > i64::MAX as u64 {
            i64::MAX
        } else {
            secs as i64
        };
        Timestamp { secs: s, nanos }
    } else if nanos == 0 {
        let s: i64 = if secs > i64::MAX as u64 {
            i64::MIN
        } else {
            -(secs as i64)
        };
        Timestamp { secs: s, nanos: 0 }
    } else {
        let s: i64 = if secs >= i64::MAX as u64 {
            i64::MIN
        } else {
            -(secs as i64) - 1
        };
        Timestamp { secs: s, nanos: 1_000_000_000 - nanos }
    }
}

/// The current UTC time from the system clock; a clock that reads before
/// 1970 gives a negative number of seconds. Of the value only the range of
/// its nanoseconds is claimed.
pub fn now_utc() -> (t: Timestamp)
    ensures
        t.nanos < 1_000_000_000,
{
    let now = system_now();
    match since_unix_epoch(&now) {
        Ok(d) => timestamp_from_parts(false, duration_secs(&d), duration_subsec_nanos(&d)),
        Err(e) => {
            let d = error_duration(&e);
            timestamp_from_parts(true, duration_secs(&d), duration_subsec_nanos(&d))
        },
    }
}

} // verus!
