//! The snapshot timestamp: a date in the fixed format
//! `<weekday> <month> <day> <HH:MM:SS> <year>`, turned into a Unix timestamp.
use vstd::prelude::*;

verus! {

/// Every timestamp a parsed date can yield lies strictly inside this bound;
/// the representable year range keeps the second count far below it.
pub const TS_BOUND: i64 = 0x1_0000_0000_0000;

pub uninterp spec fn date_timestamp(s: Seq<char>) -> Option<i64>;

/// Relies on chrono's `NaiveDateTime::parse_from_str` with the fixed format
/// `%a %b %d %H:%M:%S %Y`, followed by `and_utc().timestamp()`: the result is
/// a function of the text alone, and chrono's `NaiveDate` year range (about
/// ±262000 years) keeps every timestamp well inside `TS_BOUND` seconds.
#[verifier::external_body]
pub fn parse_heap_date(s: &str) -> (r: Option<i64>)
    ensures
        r == date_timestamp(s@),
        r matches Some(t) ==> -TS_BOUND < t < TS_BOUND,
{
    chrono::NaiveDateTime::parse_from_str(s, "%a %b %d %H:%M:%S %Y")
        .ok()
        .map(|d| d.and_utc().timestamp())
}

} // verus!
