//! Points in time as the connector reads them from event records.

use crate::text::{decimal, decimal_text, strip_trailing, trim_trailing};
use vstd::prelude::*;

verus! {

/// A point in time: whole non-leap seconds since 1970-01-01T00:00:00Z and the
/// nanoseconds past that second. During a leap second `nanos` runs from
/// 1_000_000_000 up to 1_999_999_999 while `secs` stays on the second before.
#[derive(Clone, Copy, Debug, PartialEq, Eq, Structural)]
pub struct Timestamp {
    pub secs: i64,
    pub nanos: u32,
}

impl Timestamp {
    /// Strict chronological order.
    pub open spec fn is_before(self, other: Timestamp) -> bool {
        self.secs < other.secs || (self.secs == other.secs && self.nanos < other.nanos)
    }

    /// Chronological order, equal instants included.
    pub open spec fn is_at_or_before(self, other: Timestamp) -> bool {
        self == other || self.is_before(other)
    }

    /// Nanoseconds since the epoch as a mathematical integer.
    pub open spec fn total_nanos(self) -> int {
        self.secs * 1_000_000_000 + self.nanos
    }

    /// Whether this instant lies strictly before `other`.
    pub fn before(&self, other: &Timestamp) -> (b: bool)
        ensures
            b == self.is_before(*other),
    {
        self.secs < other.secs || (self.secs == other.secs && self.nanos < other.nanos)
    }
}

/// The instant that an RFC 3339 date-and-time text denotes, or `None` where
/// the text is not RFC 3339.
pub uninterp spec fn rfc3339_instant(text: Seq<char>) -> Option<Timestamp>;

/// Calls `chrono::DateTime::parse_from_rfc3339` and reads the result with
/// `DateTime::timestamp` and `DateTime::timestamp_subsec_nanos`. The outcome
/// depends on the text alone.
#[verifier::external_body]
pub(crate) fn parse_rfc3339(text: &str) -> (r: Option<Timestamp>)
    ensures
        r == rfc3339_instant(text@),
{
    match chrono::DateTime::parse_from_rfc3339(text) {
        Ok(dt) => Some(Timestamp { secs: dt.timestamp(), nanos: dt.timestamp_subsec_nanos() }),
        Err(_) => None,
    }
}

/// Nanoseconds since the epoch where they fit 64 bits, else `None`: the span
/// runs from 1677-09-21T00:12:43.145224192Z to 2262-04-11T23:47:16.854775807Z.
pub open spec fn unix_nanos(t: Timestamp) -> Option<i64> {
    if i64::MIN <= t.total_nanos() <= i64::MAX {
        Some(t.total_nanos() as i64)
    } else {
        None
    }
}

/// Nanoseconds since the epoch where they fit 64 bits.
pub fn checked_unix_nanos(t: Timestamp) -> (r: Option<i64>)
    ensures
        r == unix_nanos(t),
{
    let total: i128 = t.secs as i128 * 1_000_000_000 + t.nanos as i128;
    if total < i64::MIN as i128 || total > i64::MAX as i128 {
        None
    } else {
        Some(total as i64)
    }
}

/// Nanoseconds since the epoch, 0 where they do not fit 64 bits.
pub open spec fn nanos_or_zero(t: Timestamp) -> i64 {
    match unix_nanos(t) {
        Some(n) => n,
        None => 0,
    }
}

/// Nanoseconds since the epoch, 0 where they do not fit 64 bits. This is how
/// an instant counts as a stamp, the clock's reading as well as an event's
/// own.
pub fn unix_nanos_or_zero(t: Timestamp) -> (n: i64)
    ensures
        n == nanos_or_zero(t),
{
    match checked_unix_nanos(t) {
        Some(n) => n,
        None => 0,
    }
}

/// The timestamp text with its trailing `Z`s replaced by an explicit zero offset.
pub open spec fn with_zero_offset(text: Seq<char>) -> Seq<char> {
    strip_trailing(text, 'Z') + "+00:00"@
}

/// The instant a log line is stamped with: the text read as RFC 3339, or,
/// failing that, read again with a zero offset in place of its trailing `Z`s.
pub open spec fn line_instant(text: Seq<char>) -> Option<Timestamp> {
    match rfc3339_instant(text) {
        Some(t) => Some(t),
        None => rfc3339_instant(with_zero_offset(text)),
    }
}

/// The nanosecond stamp of a log line whose timestamp text is `text`, given
/// the clock reading `now` for the case that the text cannot be read. An
/// instant outside the 64-bit nanosecond span is stamped 0.
pub open spec fn line_nanos(text: Seq<char>, now: i64) -> i64 {
    match line_instant(text) {
        Some(t) => nanos_or_zero(t),
        None => now,
    }
}

/// Reads a timestamp text the lenient way a log line needs it.
pub fn parse_line_instant(timestamp: &str) -> (r: Option<Timestamp>)
    ensures
        r == line_instant(timestamp@),
{
    match parse_rfc3339(timestamp) {
        Some(t) => Some(t),
        None => {
            let mut retry = trim_trailing(timestamp, 'Z');
            retry.append("+00:00");
            parse_rfc3339(retry.as_str())
        },
    }
}

/// The nanosecond stamp for `timestamp`. `now` is the clock's reading, which
/// stands in where the text cannot be read and is not looked at otherwise.
pub fn timestamp_to_nanoseconds(timestamp: &str, now: i64) -> (r: String)
    ensures
        r@ == decimal_text(line_nanos(timestamp@, now) as int),
{
    match parse_line_instant(timestamp) {
        Some(t) => decimal(unix_nanos_or_zero(t)),
        None => decimal(now),
    }
}

} // verus!
