//! Calendar dates as plain year, month and day, read with chrono.
use vstd::prelude::*;
use chrono::Datelike;

verus! {

/// A calendar date.
#[derive(Clone, Copy, Debug, PartialEq, Eq, Structural)]
pub struct Date {
    pub year: i32,
    pub month: u32,
    pub day: u32,
}

/// The date as a (year, month, day) triple.
pub open spec fn ymd(d: Date) -> (i32, u32, u32) {
    (d.year, d.month, d.day)
}

/// Chronological order of (year, month, day) triples.
pub open spec fn ymd_lt(a: (i32, u32, u32), b: (i32, u32, u32)) -> bool {
    a.0 < b.0 || (a.0 == b.0 && (a.1 < b.1 || (a.1 == b.1 && a.2 < b.2)))
}

/// Whether `a` is strictly earlier than `b`.
pub fn date_before(a: &Date, b: &Date) -> (r: bool)
    ensures
        r == ymd_lt(ymd(*a), ymd(*b)),
{
    a.year < b.year || (a.year == b.year && (a.month < b.month || (a.month == b.month && a.day
        < b.day)))
}

/// The date that chrono reads from `s` in the form `%Y-%m-%d`, if any.
pub uninterp spec fn iso_date_of(s: Seq<char>) -> Option<(i32, u32, u32)>;

/// Relies on `chrono::NaiveDate::parse_from_str` with the format `%Y-%m-%d`:
/// whether it accepts `s`, and which date it reads, depends on `s` alone.
#[verifier::external_body]
fn parse_iso_date(s: &str) -> (r: Option<Date>)
    ensures
        match r {
            Some(d) => iso_date_of(s@) == Some(ymd(d)),
            None => iso_date_of(s@) is None,
        },
{
    chrono::NaiveDate::parse_from_str(s, "%Y-%m-%d").ok().map(
        |d| Date { year: d.year(), month: d.month(), day: d.day() },
    )
}

/// The part of an expiry text that is read as a date: its first ten characters.
pub open spec fn date_text(s: Seq<char>) -> Seq<char> {
    if s.len() >= 10 {
        s.subrange(0, 10)
    } else {
        s
    }
}

/// The date in the first ten characters of `s`, if they hold one.
pub open spec fn expiry_date_of(s: Seq<char>) -> Option<(i32, u32, u32)> {
    iso_date_of(date_text(s))
}

/// Reads the date in the first ten characters of `value`; an unreadable date
/// is an error that names `value`.
pub fn parse_date(value: &str) -> (r: Result<Date, String>)
    ensures
        match r {
            Ok(d) => expiry_date_of(value@) == Some(ymd(d)),
            Err(e) => expiry_date_of(value@) is None && e@ == "Invalid date format: "@ + value@,
        },
{
    let n = value.unicode_len();
    let candidate = if n >= 10 {
        value.substring_char(0, 10)
    } else {
        value
    };
    match parse_iso_date(candidate) {
        Some(d) => Ok(d),
        None => {
            let prefix = "Invalid date format: ".to_string();
            Err(prefix.concat(value))
        },
    }
}

} // verus!
