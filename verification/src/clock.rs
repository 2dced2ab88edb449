//! The clock and the calendar.
use chrono::TimeZone;
use vstd::prelude::*;

verus! {

/// `chrono::Utc::now`, as seconds since 1970. The bounds are those of the dates
/// that chrono can represent.
#[verifier::external_body]
pub(crate) fn utc_now() -> (r: i64)
    ensures
        -8_334_601_228_800 <= r <= 8_210_266_876_799,
{
    chrono::Utc::now().timestamp()
}

/// The current time in seconds since 1970.
pub fn unix_now() -> (r: i64)
    ensures
        -8_334_601_228_800 <= r <= 8_210_266_876_799,
{
    utc_now()
}

/// Today's date in UTC as `YYYYMMDD`, from `chrono::Utc::now`. Nothing is claimed of
/// it: it rests on the clock.
#[verifier::external_body]
pub(crate) fn utc_date_stamp() -> String {
    chrono::Utc::now().format("%Y%m%d").to_string()
}

/// The month and day of a time, such as `Mar 14`, as chrono writes them in UTC;
/// none outside the dates that chrono can represent.
pub uninterp spec fn month_day(ts: i64) -> Option<Seq<char>>;

/// `chrono::TimeZone::timestamp_opt` in UTC, written with `%b %-d`.
#[verifier::external_body]
pub(crate) fn format_month_day(ts: i64) -> (r: Option<String>)
    ensures
        crate::text::opt_view(r) == month_day(ts),
{
    chrono::Utc.timestamp_opt(ts, 0).single().map(|d| d.format("%b %-d").to_string())
}

/// A time to the minute, such as `2025-03-14 09:26 UTC`, as chrono writes it;
/// none outside the dates that chrono can represent.
pub uninterp spec fn minute_stamp(ts: i64) -> Option<Seq<char>>;

/// `chrono::TimeZone::timestamp_opt` in UTC, written with `%Y-%m-%d %H:%M UTC`.
#[verifier::external_body]
pub(crate) fn format_minute(ts: i64) -> (r: Option<String>)
    ensures
        crate::text::opt_view(r) == minute_stamp(ts),
{
    chrono::Utc.timestamp_opt(ts, 0).single().map(|d| d.format("%Y-%m-%d %H:%M UTC").to_string())
}

} // verus!
