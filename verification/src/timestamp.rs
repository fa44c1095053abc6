use std::time::{Duration, SystemTime, SystemTimeError, UNIX_EPOCH};

use vstd::prelude::*;

use crate::clock::duration_as_nanos;

verus! {

/// `std::time::SystemTime`, an opaque wall-clock reading.
#[verifier::external_type_specification]
#[verifier::external_body]
pub struct ExSystemTime(SystemTime);

/// `std::time::SystemTimeError`: how far a reading lies before another.
#[verifier::external_type_specification]
#[verifier::external_body]
pub struct ExSystemTimeError(SystemTimeError);

/// The current wall-clock time, from `std::time::SystemTime::now`.
///
/// Nothing is promised of the result: it depends on the system clock.
#[verifier::external_body]
pub(crate) fn system_time_now() -> SystemTime {
    SystemTime::now()
}

/// Time since the Unix epoch, from `std::time::SystemTime::duration_since`;
/// its error when the reading lies before the epoch.
///
/// Nothing is promised of the result: it depends on the reading.
#[verifier::external_body]
pub(crate) fn since_unix_epoch(t: SystemTime) -> Result<Duration, SystemTimeError> {
    t.duration_since(UNIX_EPOCH)
}

/// How far the reading lay before the epoch, from
/// `std::time::SystemTimeError::duration`.
///
/// Nothing is promised of the result: it depends on the reading.
#[verifier::external_body]
fn error_offset(e: SystemTimeError) -> Duration {
    e.duration()
}

/// A UTC instant: whole seconds since the Unix epoch and the nanoseconds
/// within that second.
#[derive(Debug, Clone, Copy, PartialEq, Eq, Structural)]
pub struct Timestamp {
    /// Seconds since 1970-01-01T00:00:00Z.
    pub secs: i64,
    /// Nanoseconds within the second.
    pub nanos: u32,
}

/// The instant `total` nanoseconds after the Unix epoch (before it, when
/// `before`), as whole seconds rounded down and the nanoseconds within the
/// second; clamped to the first or last instant the type holds.
pub open spec fn unix_instant(before: bool, total: nat) -> Timestamp {
    let secs = total / 1_000_000_000;
    let nanos = total % 1_000_000_000;
    if !before {
        if secs > i64::MAX {
            Timestamp { secs: i64::MAX, nanos: 999_999_999 }
        } else {
            Timestamp { secs: secs as i64, nanos: nanos as u32 }
        }
    } else if nanos == 0 {
        if secs > 0x8000_0000_0000_0000 {
            Timestamp { secs: i64::MIN, nanos: 0 }
        } else {
            Timestamp { secs: (-secs) as i64, nanos: 0 }
        }
    } else if secs + 1 > 0x8000_0000_0000_0000 {
        Timestamp { secs: i64::MIN, nanos: 0 }
    } else {
        Timestamp { secs: (-(secs + 1)) as i64, nanos: (1_000_000_000 - nanos) as u32 }
    }
}

impl Timestamp {
    /// The instant `total` nanoseconds after (or, when `before`, before)
    /// the Unix epoch.
    pub fn from_unix_nanos(before: bool, total: u128) -> (t: Timestamp)
        ensures
            t == unix_instant(before, total as nat),
            t.nanos < 1_000_000_000,
    {
        let secs: u128 = total / 1_000_000_000;
        let nanos: u128 = total % 1_000_000_000;
        if !before {
            if secs > 9_223_372_036_854_775_807u128 {
                Timestamp { secs: i64::MAX, nanos: 999_999_999 }
            } else {
                Timestamp { secs: secs as i64, nanos: nanos as u32 }
            }
        } else if nanos == 0 {
            if secs > 9_223_372_036_854_775_808u128 {
                Timestamp { secs: i64::MIN, nanos: 0 }
            } else {
                Timestamp { secs: (0i128 - (secs as i128)) as i64, nanos: 0 }
            }
        } else if secs + 1 > 9_223_372_036_854_775_808u128 {
            Timestamp { secs: i64::MIN, nanos: 0 }
        } else {
            Timestamp { secs: (0i128 - (secs as i128) - 1) as i64, nanos: (1_000_000_000 - nanos) as u32 }
        }
    }

    /// The current wall-clock time: the system clock's offset from the Unix
    /// epoch, in either direction.
    ///
    /// Nothing is promised of the instant itself: it depends on the system
    /// clock.
    pub fn now() -> (t: Timestamp)
        ensures
            t.nanos < 1_000_000_000,
            exists|before: bool, total: u128| t == #[trigger] unix_instant(before, total as nat),
    {
        match since_unix_epoch(system_time_now()) {
            Ok(d) => {
                let total = duration_as_nanos(d);
                Timestamp::from_unix_nanos(false, total)
            },
            Err(e) => {
                let total = duration_as_nanos(error_offset(e));
                Timestamp::from_unix_nanos(true, total)
            },
        }
    }
}

} // verus!
