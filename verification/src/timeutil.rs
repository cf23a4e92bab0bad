//! The two points where calendar arithmetic enters: reading a caller's
//! date bound (RFC 3339 text or a millisecond epoch number) and rendering
//! stored timestamps back out. The calendar work itself is the date
//! library's; its results are named, and the parsing of the numeric form
//! is proved here.

use vstd::prelude::*;

use crate::text::{chars_of_str, parse_i64_chars, spec_parse_i64};

verus! {

/// The millisecond epoch instant an RFC 3339 string denotes, when it
/// parses; a function of the text alone.
pub uninterp spec fn rfc3339_ms_of(s: Seq<char>) -> Option<i64>;

/// Relies on chrono's `DateTime::parse_from_rfc3339`: the instant denoted
/// by the text, in epoch milliseconds.
#[verifier::external_body]
fn parse_rfc3339_ms(s: &str) -> (r: Option<i64>)
    ensures
        r == rfc3339_ms_of(s@),
{
    match chrono::DateTime::parse_from_rfc3339(s) {
        Ok(dt) => Some(dt.timestamp_millis()),
        Err(_) => None,
    }
}

/// The RFC 3339 rendering (millisecond precision, UTC offset written
/// `+00:00`) of an epoch instant that the calendar can represent; a
/// function of the instant alone.
pub uninterp spec fn rfc3339_str_of(ms: i64) -> Option<Seq<char>>;

/// Relies on chrono's `DateTime::from_timestamp_millis` and
/// `to_rfc3339_opts`: the RFC 3339 text of the instant, `None` only when
/// the instant lies outside the representable calendar.
#[verifier::external_body]
pub fn format_rfc3339_ms(ms: i64) -> (r: Option<String>)
    ensures
        view_opt(r) == rfc3339_str_of(ms),
{
    chrono::DateTime::<chrono::Utc>::from_timestamp_millis(ms).map(
        |dt| dt.to_rfc3339_opts(chrono::SecondsFormat::Millis, false),
    )
}

pub open spec fn view_opt(o: Option<String>) -> Option<Seq<char>> {
    match o {
        Some(s) => Some(s@),
        None => None,
    }
}

/// The calendar date (`YYYY-MM-DD`, UTC) containing an epoch instant; a
/// function of the instant alone.
pub uninterp spec fn civil_date_of(ms: i64) -> Option<Seq<char>>;

/// Relies on chrono's `date_naive` formatting: the UTC calendar date of
/// the instant.
#[verifier::external_body]
pub fn format_civil_date(ms: i64) -> (r: Option<String>)
    ensures
        view_opt(r) == civil_date_of(ms),
{
    chrono::DateTime::<chrono::Utc>::from_timestamp_millis(ms).map(
        |dt| dt.date_naive().to_string(),
    )
}

/// What a caller-supplied time bound denotes: an RFC 3339 instant, or a
/// millisecond epoch number for inputs that parse as integers instead.
pub open spec fn spec_parse_date(s: Seq<char>) -> Option<i64> {
    match rfc3339_ms_of(s) {
        Some(ms) => Some(ms),
        None => spec_parse_i64(s),
    }
}

/// Reads a time bound: RFC 3339 text, or a millisecond epoch integer.
pub fn parse_date(input: &str) -> (r: Option<i64>)
    ensures
        r == spec_parse_date(input@),
{
    match parse_rfc3339_ms(input) {
        Some(ms) => Some(ms),
        None => {
            let chars = chars_of_str(input);
            parse_i64_chars(&chars)
        },
    }
}

} // verus!
