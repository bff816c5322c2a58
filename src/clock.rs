//! Time values from chrono, handed over as plain `Timestamp`s.

use vstd::prelude::*;
use crate::models::Timestamp;

verus! {

/// The UTC moment that chrono reads from an RFC 3339 text, if it reads one.
pub uninterp spec fn rfc3339_utc(text: Seq<char>) -> Option<Timestamp>;

/// Relies on chrono's `DateTime::parse_from_rfc3339`, moved to UTC by
/// `with_timezone(&Utc)`: the Unix seconds, the nanoseconds past them, and
/// the UTC calendar date. chrono keeps the nanoseconds below two billion (a
/// leap second runs past one billion), a month in 1..=12 and a day in 1..=31.
#[verifier::external_body]
pub fn parse_rfc3339(text: &str) -> (r: Option<Timestamp>)
    ensures
        r == rfc3339_utc(text@),
        r matches Some(t) ==> t.nanos < 2_000_000_000 && 1 <= t.month <= 12 && 1 <= t.day <= 31,
{
    match chrono::DateTime::parse_from_rfc3339(text) {
        Ok(dt) => {
            let u = dt.with_timezone(&chrono::Utc);
            Some(Timestamp {
                secs: u.timestamp(),
                nanos: u.timestamp_subsec_nanos(),
                year: chrono::Datelike::year(&u),
                month: chrono::Datelike::month(&u),
                day: chrono::Datelike::day(&u),
            })
        },
        Err(_) => None,
    }
}

/// Relies on std's `SystemTime::now` and chrono's `From<SystemTime> for
/// DateTime<Utc>` (which also takes clocks set before 1970): the current
/// moment, with the same field ranges as above. Nothing is known of which
/// moment it is.
#[verifier::external_body]
pub fn now_utc() -> (r: Timestamp)
    ensures
        r.nanos < 2_000_000_000 && 1 <= r.month <= 12 && 1 <= r.day <= 31,
{
    let u = chrono::DateTime::<chrono::Utc>::from(std::time::SystemTime::now());
    Timestamp {
        secs: u.timestamp(),
        nanos: u.timestamp_subsec_nanos(),
        year: chrono::Datelike::year(&u),
        month: chrono::Datelike::month(&u),
        day: chrono::Datelike::day(&u),
    }
}

} // verus!
