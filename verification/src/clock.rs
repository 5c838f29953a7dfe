//! The clock, and how points in time are written.
use vstd::prelude::*;

verus! {

/// How a point in time is written at the start of a log line.
pub const LOG_TIME_FORMAT: &'static str = "%Y-%m-%d %H:%M:%S UTC";

/// The last second that a calendar date can be given for, in seconds since
/// the start of 1970 (the end of the year 262142).
pub const LAST_SECOND: i64 = 8210266876799;

/// A point in time that has a calendar date: whole seconds since the start of
/// 1970, and nanoseconds within the second.
pub open spec fn datable(secs: int, nanos: int) -> bool {
    0 <= secs <= LAST_SECOND && 0 <= nanos < 1000000000
}

/// The text that chrono writes for a second under a format description.
pub uninterp spec fn utc_text(secs: i64, format: Seq<char>) -> Seq<char>;

/// The RFC 3339 text that chrono writes for a point in time.
pub uninterp spec fn rfc3339_text(secs: i64, nanos: u32) -> Seq<char>;

/// `chrono::Utc::now`, as whole seconds since the start of 1970 and the
/// nanoseconds within the second. What chrono returns has a calendar date, is
/// no earlier than 1970 and not inside a leap second. Which point in time it
/// is depends on the clock; one that stands before 1970 is refused.
#[verifier::external_body]
pub(crate) fn utc_now() -> (now: (i64, u32))
    ensures
        datable(now.0 as int, now.1 as int),
{
    let now = chrono::Utc::now();
    (now.timestamp(), now.timestamp_subsec_nanos())
}

/// `chrono::DateTime::format`, for the format of log lines: the text depends
/// on the second and on the format description alone.
#[verifier::external_body]
pub(crate) fn format_utc(secs: i64, format: &str) -> (text: String)
    requires
        datable(secs as int, 0),
        format@ == LOG_TIME_FORMAT@,
    ensures
        text@ == utc_text(secs, format@),
{
    let time = chrono::DateTime::from_timestamp(secs, 0).unwrap();
    time.format(format).to_string()
}

/// `chrono::DateTime::to_rfc3339`, for a time in UTC: the text depends on the
/// point in time alone.
#[verifier::external_body]
pub(crate) fn format_rfc3339(secs: i64, nanos: u32) -> (text: String)
    requires
        datable(secs as int, nanos as int),
    ensures
        text@ == rfc3339_text(secs, nanos),
{
    let time = chrono::DateTime::from_timestamp(secs, nanos).unwrap();
    time.to_rfc3339()
}

/// `std::time::SystemTime::elapsed`, since the start of 1970, in whole
/// seconds; zero if the clock stands before 1970. What it returns depends on
/// the clock.
#[verifier::external_body]
pub(crate) fn unix_now() -> (secs: u64) {
    std::time::UNIX_EPOCH.elapsed().unwrap_or_default().as_secs()
}

} // verus!
