//! Release timestamps: RFC 3339 or plain `YYYY-MM-DD`, both read by the
//! calendar library and reduced to seconds since the epoch.

use vstd::prelude::*;

verus! {

/// The instant an RFC 3339 string denotes, in seconds since the epoch.
/// A function of the characters alone.
pub uninterp spec fn rfc3339_instant(s: Seq<char>) -> Option<int>;

/// Midnight UTC of the day a `YYYY-MM-DD` string denotes, in seconds
/// since the epoch. A function of the characters alone.
pub uninterp spec fn ymd_instant(s: Seq<char>) -> Option<int>;

/// Relies on `chrono::DateTime::parse_from_rfc3339` and
/// `DateTime::timestamp`: the result depends on the characters alone.
#[verifier::external_body]
fn parse_rfc3339(s: &str) -> (r: Option<i64>)
    ensures
        match r {
            Option::Some(t) => rfc3339_instant(s@) == Option::Some(t as int),
            Option::None => rfc3339_instant(s@) is None,
        },
{
    chrono::DateTime::parse_from_rfc3339(s).ok().map(|d| d.timestamp())
}

/// Relies on `chrono::NaiveDate::parse_from_str` with `%Y-%m-%d`, taken
/// at midnight UTC: the result depends on the characters alone.
#[verifier::external_body]
fn parse_ymd(s: &str) -> (r: Option<i64>)
    ensures
        match r {
            Option::Some(t) => ymd_instant(s@) == Option::Some(t as int),
            Option::None => ymd_instant(s@) is None,
        },
{
    chrono::NaiveDate::parse_from_str(s, "%Y-%m-%d")
        .ok()
        .map(|d| d.and_time(chrono::NaiveTime::default()).and_utc().timestamp())
}

/// Read a release date: an RFC 3339 instant, or failing that a bare day
/// taken at midnight UTC; `None` when it is neither.
pub fn parse_release_date(s: &str) -> (r: Option<i64>)
    ensures
        match r {
            Option::Some(t) => rfc3339_instant(s@) == Option::Some(t as int) || (rfc3339_instant(
                s@,
            ) is None && ymd_instant(s@) == Option::Some(t as int)),
            Option::None => rfc3339_instant(s@) is None && ymd_instant(s@) is None,
        },
{
    match parse_rfc3339(s) {
        Option::Some(t) => Option::Some(t),
        Option::None => parse_ymd(s),
    }
}

} // verus!
