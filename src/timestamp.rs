//! Instants: microseconds since the Unix epoch, in UTC, written as RFC 3339.

use vstd::prelude::*;

verus! {

/// The first instant of year 0000, in microseconds since the epoch.
pub const MIN_TIME: i64 = -62167219200000000;

/// The last microsecond of year 9999.
pub const MAX_TIME: i64 = 253402300799999999;

/// The RFC 3339 text that `chrono` writes for an instant.
pub uninterp spec fn rfc3339_text(t: i64) -> Seq<char>;

/// The instant that `chrono` reads from an RFC 3339 text, if it reads one.
pub uninterp spec fn rfc3339_value(s: Seq<char>) -> Option<i64>;

/// The instant that `chrono` reads from a text without offset, taken as UTC.
pub uninterp spec fn naive_value(s: Seq<char>) -> Option<i64>;

/// Relies on `chrono::DateTime::<Utc>::from_timestamp_micros`, which accepts every instant of
/// years 0000 to 9999, and `to_rfc3339_opts` with microseconds and `Z`: a four-digit-year
/// RFC 3339 text, which `DateTime::parse_from_rfc3339` reads back to the same instant.
#[verifier::external_body]
pub(crate) fn format_time(t: i64) -> (r: String)
    requires
        MIN_TIME <= t <= MAX_TIME,
    ensures
        r@ == rfc3339_text(t),
        rfc3339_value(r@) == Some(t),
{
    chrono::DateTime::<chrono::Utc>::from_timestamp_micros(t).unwrap().to_rfc3339_opts(
        chrono::SecondsFormat::Micros,
        true,
    )
}

/// Relies on `chrono::DateTime::parse_from_rfc3339` and `timestamp_micros`.
#[verifier::external_body]
pub(crate) fn parse_rfc3339(s: &str) -> (r: Option<i64>)
    ensures
        r == rfc3339_value(s@),
{
    match chrono::DateTime::parse_from_rfc3339(s) {
        Ok(d) => Some(d.timestamp_micros()),
        Err(_) => None,
    }
}

/// Relies on `chrono::NaiveDateTime::parse_from_str` with `%Y-%m-%dT%H:%M:%S%.f`, and on
/// `and_utc` and `timestamp_micros` to read the result as UTC.
#[verifier::external_body]
pub(crate) fn parse_naive(s: &str) -> (r: Option<i64>)
    ensures
        r == naive_value(s@),
{
    match chrono::NaiveDateTime::parse_from_str(s, "%Y-%m-%dT%H:%M:%S%.f") {
        Ok(d) => Some(d.and_utc().timestamp_micros()),
        Err(_) => None,
    }
}

/// The instant a context's time text stands for: RFC 3339 first, then a text without offset.
pub open spec fn time_value(s: Seq<char>) -> Option<i64> {
    match rfc3339_value(s) {
        Some(t) => Some(t),
        None => naive_value(s),
    }
}

/// Reads a context's time: RFC 3339, or a text without offset taken as UTC.
pub fn parse_time(s: &str) -> (r: Option<i64>)
    ensures
        r == time_value(s@),
{
    match parse_rfc3339(s) {
        Some(t) => Some(t),
        None => parse_naive(s),
    }
}

} // verus!
