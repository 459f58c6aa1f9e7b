//! Points in time, and their RFC 3339 text as `chrono` writes it.
use vstd::prelude::*;

use crate::config::opt_view;

verus! {

/// A point in time: seconds and nanoseconds since the Unix epoch, UTC.
#[derive(Debug, Clone, Copy, PartialEq, Eq, Structural)]
pub struct UtcTime {
    pub secs: i64,
    pub nanos: u32,
}

/// The RFC 3339 text that `chrono` writes for a timestamp, or `None` where
/// `chrono` has no date and time for it.
pub uninterp spec fn rfc3339_of(secs: i64, nanos: u32) -> Option<Seq<char>>;

/// `chrono::DateTime::<Utc>::from_timestamp` followed by `to_rfc3339`: the
/// RFC 3339 text of the timestamp, or `None` where `from_timestamp` finds it
/// out of range (or the nanoseconds invalid).
#[verifier::external_body]
pub(crate) fn timestamp_rfc3339(secs: i64, nanos: u32) -> (r: Option<String>)
    ensures
        opt_view(r) == rfc3339_of(secs, nanos),
{
    match chrono::DateTime::from_timestamp(secs, nanos) {
        Some(dt) => Some(dt.to_rfc3339()),
        None => None,
    }
}

/// The instant, as seconds and nanoseconds since the Unix epoch, that
/// `chrono` reads from an RFC 3339 text, or `None` where it does not accept it.
pub uninterp spec fn rfc3339_parsed(text: Seq<char>) -> Option<(i64, u32)>;

/// The seconds and nanoseconds of an optional time.
pub open spec fn opt_instant(t: Option<UtcTime>) -> Option<(i64, u32)> {
    match t {
        Some(v) => Some((v.secs, v.nanos)),
        None => None,
    }
}

/// `chrono::DateTime::parse_from_rfc3339`, taken to UTC: the instant that the
/// text names, or `None` where `chrono` does not accept the text.
#[verifier::external_body]
pub(crate) fn parse_rfc3339(text: &str) -> (r: Option<UtcTime>)
    ensures
        opt_instant(r) == rfc3339_parsed(text@),
{
    match chrono::DateTime::parse_from_rfc3339(text) {
        Ok(dt) => {
            let utc = dt.with_timezone(&chrono::Utc);
            Some(UtcTime { secs: utc.timestamp(), nanos: utc.timestamp_subsec_nanos() })
        },
        Err(_) => None,
    }
}

/// The text that `chrono` writes for a timestamp with a `strftime` pattern, or
/// `None` where `chrono` has no date and time for the timestamp.
pub uninterp spec fn utc_formatted(secs: i64, nanos: u32, pattern: Seq<char>) -> Option<Seq<char>>;

/// The patterns the terminal UI shows times with.
pub open spec fn known_pattern(pattern: Seq<char>) -> bool {
    pattern == "%m-%d %H:%M"@ || pattern == "%Y-%m-%d %H:%M:%S UTC"@
}

/// `chrono::DateTime::<Utc>::from_timestamp` followed by `format(pattern)`
/// written out; only patterns that `chrono` accepts are passed (an unknown
/// specifier makes the writing fail).
#[verifier::external_body]
pub(crate) fn format_utc(secs: i64, nanos: u32, pattern: &str) -> (r: Option<String>)
    requires
        known_pattern(pattern@),
    ensures
        opt_view(r) == utc_formatted(secs, nanos, pattern@),
{
    match chrono::DateTime::from_timestamp(secs, nanos) {
        Some(dt) => Some(dt.format(pattern).to_string()),
        None => None,
    }
}

impl UtcTime {
    /// `self` is later than `other`.
    pub open spec fn later_than(self, other: UtcTime) -> bool {
        self.secs > other.secs || (self.secs == other.secs && self.nanos > other.nanos)
    }

    /// `self` is later than `other`.
    pub fn is_after(&self, other: &UtcTime) -> (r: bool)
        ensures
            r == self.later_than(*other),
    {
        self.secs > other.secs || (self.secs == other.secs && self.nanos > other.nanos)
    }

    /// `self` moved by `seconds`, when the sum stays in range.
    pub fn plus_seconds(&self, seconds: i64) -> (r: Option<UtcTime>)
        ensures
            match r {
                Some(t) => t.secs == self.secs + seconds && t.nanos == self.nanos,
                None => !(i64::MIN <= self.secs + seconds <= i64::MAX),
            },
    {
        match self.secs.checked_add(seconds) {
            Some(s) => Some(UtcTime { secs: s, nanos: self.nanos }),
            None => None,
        }
    }

    /// The RFC 3339 text of the time, or `None` where `chrono` cannot represent it.
    pub fn to_rfc3339(&self) -> (r: Option<String>)
        ensures
            opt_view(r) == rfc3339_of(self.secs, self.nanos),
    {
        timestamp_rfc3339(self.secs, self.nanos)
    }
}

} // verus!
