//! Timestamps as milliseconds since the Unix epoch, UTC.
//!
//! Parsing a timestamp string and rendering a timestamp for display are both
//! delegated to the `chrono` crate; everything else in the engine works on the
//! plain millisecond values defined here.

use vstd::prelude::*;

verus! {

/// One day, in milliseconds.
pub const MILLIS_PER_DAY: i64 = 86_400_000;

/// Smallest timestamp the display formatter accepts: the start of year 0,
/// UTC. RFC 2822 only represents years 0 through 9999, and `chrono`'s
/// renderer aborts outside them.
pub const TS_FORMAT_MIN: i64 = -62_167_219_200_000;

/// Largest timestamp the display formatter accepts: the last millisecond of
/// year 9999, UTC; see [`TS_FORMAT_MIN`].
pub const TS_FORMAT_MAX: i64 = 253_402_300_799_999;

/// What parsing a timestamp string yields: the instant it denotes, in
/// milliseconds since the Unix epoch, or nothing if the string is not a valid
/// RFC 3339 date-time. The result depends on the string alone.
pub uninterp spec fn parsed_ts_millis(s: Seq<char>) -> Option<i64>;

/// The RFC 2822 rendering of the instant that lies `ts_millis` milliseconds
/// after the Unix epoch, in UTC. The result depends on the timestamp alone.
pub uninterp spec fn rfc2822_of(ts_millis: i64) -> Seq<char>;

/// Relies on `chrono`'s `FromStr` for `DateTime<Utc>` (a relaxed RFC 3339
/// parser) and on `DateTime::timestamp_millis`. A parsed `DateTime` lies
/// within about 262,000 years of the common era, so its millisecond value is
/// well within the stated bound.
#[verifier::external_body]
pub(crate) fn parse_timestamp_millis(s: &str) -> (r: Option<i64>)
    ensures
        r == parsed_ts_millis(s@),
        r is Some ==> -8_400_000_000_000_000 <= r->0 <= 8_400_000_000_000_000,
{
    match s.parse::<chrono::DateTime<chrono::Utc>>() {
        Ok(d) => Some(d.timestamp_millis()),
        Err(_) => None,
    }
}

/// Relies on `chrono::DateTime::from_timestamp_millis`, which accepts every
/// timestamp within about 262,000 years of the common era, and on
/// `DateTime::to_rfc2822`, which renders every instant whose year lies in
/// 0 through 9999 and aborts outside them. The stated bounds are exactly the
/// years 0 through 9999, safely inside the former range and never tripping
/// the latter abort.
#[verifier::external_body]
pub(crate) fn format_rfc2822(ts_millis: i64) -> (r: String)
    requires
        TS_FORMAT_MIN <= ts_millis <= TS_FORMAT_MAX,
    ensures
        r@ == rfc2822_of(ts_millis),
{
    chrono::DateTime::<chrono::Utc>::from_timestamp_millis(ts_millis).unwrap().to_rfc2822()
}

} // verus!
