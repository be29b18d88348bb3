//! Conversion of raw version-control timestamps (seconds since the Unix
//! epoch plus an offset in minutes) into a validated date-time value.
//!
//! The date-time is modelled as the pair of its instant and its offset.
//! The accepted ranges mirror a proleptic Gregorian calendar limited to the
//! years -9999 through 9999 and offsets up to 25:59:59 on either side of
//! UTC; a commit whose timestamp falls outside is rejected.

use vstd::prelude::*;

verus! {

/// Smallest representable instant: midnight on the first day of year -9999.
pub const MIN_UNIX_SECONDS: i64 = -377705116800;

/// Largest representable instant: the last second of year 9999.
pub const MAX_UNIX_SECONDS: i64 = 253402300799;

/// Largest offset magnitude from UTC, in seconds (25:59:59).
pub const MAX_OFFSET_SECONDS: i32 = 93599;

/// An instant together with the UTC offset it was recorded in. Ordering and
/// filtering go by the instant alone; the offset only matters for display.
#[derive(Clone, Copy, Debug, PartialEq, Eq, Structural)]
pub struct DateTime {
    pub unix_seconds: i64,
    pub offset_seconds: i32,
}

/// Whether a raw timestamp lies in the representable range.
pub open spec fn spec_seconds_in_range(seconds: i64) -> bool {
    MIN_UNIX_SECONDS <= seconds <= MAX_UNIX_SECONDS
}

/// Whether a raw offset, in minutes, lies in the representable range once
/// scaled to seconds.
pub open spec fn spec_offset_in_range(offset_minutes: i32) -> bool {
    -MAX_OFFSET_SECONDS <= offset_minutes * 60 <= MAX_OFFSET_SECONDS
}

impl DateTime {
    /// The instant, in seconds since the Unix epoch.
    pub fn unix_timestamp(&self) -> (r: i64)
        ensures
            r == self.unix_seconds,
    {
        self.unix_seconds
    }
}

/// Converts a version-control timestamp to a validated date-time.
///
/// Succeeds exactly when both the seconds and the scaled offset lie in the
/// representable ranges; the resulting instant is the raw seconds value,
/// untouched by the offset.
pub fn to_datetime(seconds: i64, offset_minutes: i32) -> (r: Option<DateTime>)
    ensures
        r matches Some(d) ==> d.unix_seconds == seconds && d.offset_seconds == offset_minutes
            * 60 && spec_seconds_in_range(seconds) && spec_offset_in_range(offset_minutes),
        r is None ==> !(spec_seconds_in_range(seconds) && spec_offset_in_range(offset_minutes)),
{
    if seconds < MIN_UNIX_SECONDS || seconds > MAX_UNIX_SECONDS {
        return None;
    }
    if offset_minutes < -1560 || offset_minutes > 1560 {
        // |offset| of 26 hours or more cannot scale into range.
        return None;
    }
    let offset_seconds: i32 = offset_minutes * 60;
    if offset_seconds < -MAX_OFFSET_SECONDS || offset_seconds > MAX_OFFSET_SECONDS {
        return None;
    }
    Some(DateTime { unix_seconds: seconds, offset_seconds })
}

} // verus!
