//! Parsing of the user's date bounds. Three interpretations are tried in
//! order: an ISO 8601 date-time, an ISO 8601 date taken at midnight UTC,
//! and a human-readable duration subtracted from the current time. The
//! first that succeeds wins.

use vstd::prelude::*;

verus! {

/// The instant an ISO 8601 date-time string denotes, in epoch seconds, if
/// the string parses as one.
pub uninterp spec fn iso_datetime_seconds(s: Seq<char>) -> Option<i64>;

/// The instant of midnight UTC on the day an ISO 8601 date string denotes,
/// in epoch seconds, if the string parses as a date.
pub uninterp spec fn iso_date_midnight_seconds(s: Seq<char>) -> Option<i64>;

/// The length a human-readable duration string denotes, in whole seconds,
/// if the string parses as a duration.
pub uninterp spec fn duration_seconds(s: Seq<char>) -> Option<u64>;

/// Relies on time's `OffsetDateTime::parse` with the ISO 8601 description:
/// what an ISO 8601 date-time string denotes depends on its characters
/// alone.
#[verifier::external_body]
fn parse_iso_datetime(s: &str) -> (r: Option<i64>)
    ensures
        r == iso_datetime_seconds(s@),
{
    time::OffsetDateTime::parse(s, &time::format_description::well_known::Iso8601::PARSING)
        .ok()
        .map(|d| d.unix_timestamp())
}

/// Relies on time's `Date::parse` with the ISO 8601 description, the date
/// taken at midnight UTC: the result depends on the characters alone.
#[verifier::external_body]
fn parse_iso_date_midnight(s: &str) -> (r: Option<i64>)
    ensures
        r == iso_date_midnight_seconds(s@),
{
    time::Date::parse(s, &time::format_description::well_known::Iso8601::PARSING)
        .ok()
        .map(|d| time::PrimitiveDateTime::new(d, time::Time::MIDNIGHT).assume_utc().unix_timestamp())
}

/// Saturation point of the magnitude scan: one less than 2^64, the
/// largest seconds count a duration can hold.
pub const DUR_CAP: u128 = 0xFFFF_FFFF_FFFF_FFFF;

/// Seconds of the largest unit the duration grammar knows (one year).
pub const LARGEST_UNIT_SECONDS: u128 = 31557600;

/// The concatenation of the first `k` characters' digits, read as one
/// number and held at [`DUR_CAP`] once it reaches it. Because the
/// duration grammar lets one number span whitespace, this single
/// concatenation dominates every number the parser can read from the
/// string, and — digits contribute at strictly higher scales than any
/// digits after them — it dominates the sum of all of them too.
pub open spec fn spec_digit_concat(s: Seq<char>, k: int) -> int
    decreases k,
{
    if k <= 0 {
        0
    } else {
        let prev = spec_digit_concat(s, k - 1);
        let c = s[k - 1];
        if '0' <= c && c <= '9' {
            if prev >= DUR_CAP {
                DUR_CAP as int
            } else {
                prev * 10 + (c as u32 - '0' as u32)
            }
        } else {
            prev
        }
    }
}

/// Whether a duration string is small enough to hand to the parser: its
/// digit concatenation taken at the largest unit, plus a generous
/// allowance for the parser's internal nanosecond carries, stays below
/// the largest representable seconds count. Any duration a string beyond
/// this bound could denote lies before every representable instant
/// anyway.
pub open spec fn spec_duration_in_range(s: Seq<char>) -> bool {
    spec_digit_concat(s, s.len() as int) * LARGEST_UNIT_SECONDS + 4 * s.len() + 4 < DUR_CAP
}

/// See [`spec_duration_in_range`].
pub fn duration_in_range(s: &str) -> (r: bool)
    ensures
        r == spec_duration_in_range(s@),
{
    let n = s.unicode_len();
    let mut cur: u128 = 0;
    for i in 0..n
        invariant
            n == s@.len(),
            cur as int == spec_digit_concat(s@, i as int),
            cur <= DUR_CAP * 10 + 9,
        decreases n - i,
    {
        let c = s.get_char(i);
        if '0' <= c && c <= '9' {
            if cur >= DUR_CAP {
                cur = DUR_CAP;
            } else {
                cur = cur * 10 + ((c as u32 - '0' as u32) as u128);
            }
        }
    }
    let bound: u128 = cur * LARGEST_UNIT_SECONDS + 4 * (n as u128) + 4;
    bound < DUR_CAP
}

/// Relies on humantime's `parse_duration`, truncated to whole seconds: the
/// result depends on the characters alone. The parser's arithmetic is
/// checked except for one final nanosecond carry, which aborts when the
/// seconds counter is already saturated; so only strings within
/// [`spec_duration_in_range`] are handed to it. Every number that parser
/// can read — numbers may span whitespace — is a sub-concatenation of the
/// string's digits, so the scanned concatenation at the largest unit
/// bounds every seconds total it can accumulate, and the bound keeps all
/// of them far below saturation.
#[verifier::external_body]
fn parse_duration_secs(s: &str) -> (r: Option<u64>)
    requires
        spec_duration_in_range(s@),
    ensures
        r == duration_seconds(s@),
{
    humantime::parse_duration(s).ok().map(|d| d.as_secs())
}

/// Relies on time's `OffsetDateTime::now_utc`: the current instant, in
/// epoch seconds. Nothing is assumed of the value.
#[verifier::external_body]
fn now_unix() -> i64 {
    time::OffsetDateTime::now_utc().unix_timestamp()
}

/// What a date bound evaluates to against the instant `now`: the first
/// successful interpretation, a duration counting back from `now`. A
/// duration string beyond the magnitude bound, or one reaching below the
/// representable range, fails.
pub open spec fn spec_parse_time(s: Seq<char>, now: int) -> Option<i64> {
    match iso_datetime_seconds(s) {
        Some(t) => Some(t),
        None => match iso_date_midnight_seconds(s) {
            Some(t) => Some(t),
            None => {
                if !spec_duration_in_range(s) {
                    None
                } else {
                    match duration_seconds(s) {
                        Some(d) => {
                            if now - d >= i64::MIN {
                                Some((now - d) as i64)
                            } else {
                                None
                            }
                        },
                        None => None,
                    }
                }
            },
        },
    }
}

/// Evaluates a date bound against the given current instant. See
/// [`spec_parse_time`] for the order of interpretations.
pub fn parse_time_input(s: &str, now_secs: i64) -> (r: Option<i64>)
    ensures
        r == spec_parse_time(s@, now_secs as int),
{
    if let Some(t) = parse_iso_datetime(s) {
        return Some(t);
    }
    if let Some(t) = parse_iso_date_midnight(s) {
        return Some(t);
    }
    if !duration_in_range(s) {
        return None;
    }
    match parse_duration_secs(s) {
        Some(d) => {
            let diff: i128 = (now_secs as i128) - (d as i128);
            if diff >= (i64::MIN as i128) {
                proof {
                    assert(diff <= i64::MAX as i128);
                }
                Some(diff as i64)
            } else {
                None
            }
        },
        None => None,
    }
}

/// Evaluates a date bound against the clock: some current instant is read,
/// and the bound is interpreted against it.
pub fn parse_time_input_now(s: &str) -> (r: Option<i64>)
    ensures
        exists|now: i64| r == #[trigger] spec_parse_time(s@, now as int),
{
    let now = now_unix();
    let r = parse_time_input(s, now);
    proof {
        assert(r == spec_parse_time(s@, now as int));
    }
    r
}

} // verus!
