//! Calendar and timestamp conversions, done by chrono.
use vstd::prelude::*;

verus! {

/// The Unix time (seconds) of the instant that chrono's RFC 3339 parser reads from
/// `s`, or `None` where the parser refuses `s`.
pub uninterp spec fn rfc3339_epoch(s: Seq<char>) -> Option<i64>;

/// The UTC calendar date, written `%Y-%m-%d` by chrono, of the Unix time `epoch`
/// (seconds), or `None` where chrono cannot represent that instant.
pub uninterp spec fn utc_date_of(epoch: i64) -> Option<Seq<char>>;

/// First second of the year 0 (0000-01-01T00:00:00Z).
pub const YEAR_0_START: i64 = -62167219200;

/// Last second of the year 9999 (9999-12-31T23:59:59Z).
pub const YEAR_9999_END: i64 = 253402300799;

/// Unix time of an RFC 3339 timestamp such as `2026-06-22T12:00:00Z`.
///
/// Calls chrono's `DateTime::parse_from_rfc3339` and then `DateTime::timestamp`.
/// The contract claims only that the result is a function of the text (named
/// `rfc3339_epoch`); which texts parse, and to what, is chrono's RFC 3339 grammar
/// and is not stated here.
#[verifier::external_body]
pub fn parse_iso8601_to_epoch(s: &str) -> (r: Option<i64>)
    ensures
        r == rfc3339_epoch(s@),
{
    match chrono::DateTime::parse_from_rfc3339(s) {
        Ok(dt) => Some(dt.timestamp()),
        Err(_) => None,
    }
}

/// The UTC date of the Unix time `now`, as `YYYY-MM-DD`.
///
/// Calls chrono's `DateTime::from_timestamp` and formats the result with
/// `%Y-%m-%d`. The contract claims that the result is a function of `now` (named
/// `utc_date_of`); that chrono represents every instant of the years 0 to 9999,
/// whose dates it writes as ten characters with `-` at positions 4 and 7 (`%Y`
/// pads those years to four digits). Which date an instant falls on is chrono's
/// calendar and is not stated here.
#[verifier::external_body]
pub fn utc_date_string(now: i64) -> (r: Option<String>)
    ensures
        match r {
            Some(d) => utc_date_of(now) == Some(d@),
            None => utc_date_of(now) == None::<Seq<char>>,
        },
        YEAR_0_START <= now <= YEAR_9999_END ==> r is Some,
        YEAR_0_START <= now <= YEAR_9999_END ==> r->0@.len() == 10 && r->0@[4] == '-'
            && r->0@[7] == '-',
{
    match chrono::DateTime::from_timestamp(now, 0) {
        Some(dt) => Some(dt.format("%Y-%m-%d").to_string()),
        None => None,
    }
}

} // verus!
