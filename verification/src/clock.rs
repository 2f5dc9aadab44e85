//! Moments in time, as far as the telemetry logic reads them.

use crate::text;
use vstd::prelude::*;

verus! {

/// A moment: its nanoseconds since the epoch, where they fit an `i64`, and its
/// microseconds.
#[derive(Debug, PartialEq, Eq, Clone, Copy)]
pub struct Moment {
    pub nanos: Option<i64>,
    pub micros: i64,
}

/// The moment that `chrono` reads from an RFC 3339 text, `None` where the text
/// is none.
pub uninterp spec fn rfc3339_moment(t: Seq<char>) -> Option<Moment>;

/// Reads an RFC 3339 text, by `chrono::DateTime::parse_from_rfc3339`,
/// `timestamp_nanos_opt` and `timestamp_micros`.
#[verifier::external_body]
fn parse_moment(t: &str) -> (r: Option<Moment>)
    ensures
        r == rfc3339_moment(t@),
{
    chrono::DateTime::parse_from_rfc3339(t)
        .ok()
        .map(|d| d.with_timezone(&chrono::Utc))
        .map(|d| Moment { nanos: d.timestamp_nanos_opt(), micros: d.timestamp_micros() })
}

/// The present, by `chrono::Utc::now`, `timestamp_nanos_opt` and
/// `timestamp_micros`. Nothing is said of which moment that is.
#[verifier::external_body]
pub(crate) fn now() -> (r: Moment) {
    let d = chrono::Utc::now();
    Moment { nanos: d.timestamp_nanos_opt(), micros: d.timestamp_micros() }
}

/// The characters of `s` from `from` up to `to` are decimal digits.
pub open spec fn digits_at(s: Seq<char>, from: int, to: int) -> bool {
    forall|i: int| from <= i < to ==> text::is_digit(#[trigger] s[i])
}

/// `s` writes a moment in UTC, with a year of `year` characters and `fraction`
/// characters for the parts of a second: `1996-12-19T16:39:57.123+00:00`. A year
/// of more than four digits has a plus sign before it.
pub open spec fn writes_utc(s: Seq<char>, year: int, fraction: int) -> bool {
    &&& year == 4 || (year >= 6 && s[0] == '+')
    &&& fraction == 0 || fraction == 4 || fraction == 7 || fraction == 10
    &&& s.len() == year + 15 + fraction + 6
    &&& digits_at(s, if year == 4 { 0 } else { 1 }, year)
    &&& s[year] == '-' && digits_at(s, year + 1, year + 3)
    &&& s[year + 3] == '-' && digits_at(s, year + 4, year + 6)
    &&& s[year + 6] == 'T' && digits_at(s, year + 7, year + 9)
    &&& s[year + 9] == ':' && digits_at(s, year + 10, year + 12)
    &&& s[year + 12] == ':' && digits_at(s, year + 13, year + 15)
    &&& fraction > 0 ==> s[year + 15] == '.' && digits_at(s, year + 16, year + 15 + fraction)
    &&& s.skip(year + 15 + fraction) == seq!['+', '0', '0', ':', '0', '0']
}

/// `s` writes a moment in UTC.
pub open spec fn is_utc_text(s: Seq<char>) -> bool {
    exists|year: int, fraction: int| #[trigger] writes_utc(s, year, fraction)
}

/// The present as an RFC 3339 text, by `chrono::Utc::now` and `to_rfc3339`: a
/// moment in UTC, since the epoch, with as many digits behind its seconds as it
/// needs in threes. Nothing is said of which moment that is.
#[verifier::external_body]
pub(crate) fn now_text() -> (r: String)
    ensures
        is_utc_text(r@),
{
    chrono::Utc::now().to_rfc3339()
}

/// The last microsecond of the year 9999.
pub const LAST_MICROS: i64 = 253_402_300_799_999_999;

/// The RFC 3339 text that `chrono` writes, in UTC, of the moment that comes
/// `micros` microseconds after the epoch, `None` where its calendar does not
/// reach that moment.
pub uninterp spec fn rfc3339_text(micros: i64) -> Option<Seq<char>>;

/// Writes the moment `micros` microseconds after the epoch, by
/// `chrono::DateTime::from_timestamp_micros` and `to_rfc3339`. From the epoch to
/// the end of the year 9999 there is a text, in UTC.
#[verifier::external_body]
pub(crate) fn moment_text(micros: i64) -> (r: Option<String>)
    ensures
        text::held(r) == rfc3339_text(micros),
        0 <= micros <= LAST_MICROS ==> r is Some && is_utc_text(r->0@),
{
    chrono::DateTime::from_timestamp_micros(micros).map(|d| d.to_rfc3339())
}

/// The nanoseconds of a moment. Where they do not fit, a thousand times its
/// microseconds, of which the low 64 bits stay.
pub open spec fn moment_ns(m: Moment) -> i64 {
    match m.nanos {
        Some(n) => n,
        None => (m.micros * 1000) as i64,
    }
}

/// The nanoseconds of a moment.
pub fn nanoseconds(m: Moment) -> (r: i64)
    ensures
        r == moment_ns(m),
{
    match m.nanos {
        Some(n) => n,
        None => (m.micros as i128 * 1000) as i64,
    }
}

/// The nanoseconds that a timestamp text stands for, taken at `present` where
/// there is no text or it is none.
pub open spec fn timestamp_ns(iso: Option<Seq<char>>, present: Moment) -> i64 {
    match iso {
        Some(t) => match rfc3339_moment(t) {
            Some(m) => moment_ns(m),
            None => moment_ns(present),
        },
        None => moment_ns(present),
    }
}

/// The nanoseconds that a timestamp text stands for, taken at `present` where
/// there is no text or it is none.
pub fn timestamp_ns_at(iso: Option<&str>, present: Moment) -> (r: i64)
    ensures
        r == timestamp_ns(text::optional(iso), present),
{
    match iso {
        Some(t) => match parse_moment(t) {
            Some(m) => nanoseconds(m),
            None => nanoseconds(present),
        },
        None => nanoseconds(present),
    }
}

/// The nanoseconds of a moment are those it has, or else a thousand times its
/// microseconds, where that fits.
pub proof fn law_moment_ns(nanos: Option<i64>, micros: i64)
    ensures
        nanos matches Some(n) ==> moment_ns(Moment { nanos, micros }) == n,
        nanos is None && i64::MIN <= micros * 1000 <= i64::MAX ==> moment_ns(
            Moment { nanos, micros },
        ) == micros * 1000,
{
}

/// A text that can be read gives its own time, whatever the present; any other,
/// and none, gives the present.
pub proof fn law_timestamp_ns(t: Seq<char>, present: Moment)
    ensures
        rfc3339_moment(t) matches Some(m) ==> timestamp_ns(Some(t), present) == moment_ns(m),
        rfc3339_moment(t) is None ==> timestamp_ns(Some(t), present) == moment_ns(present),
        timestamp_ns(None, present) == moment_ns(present),
{
}

}
