//! What the collectors hand to the store.
use vstd::prelude::*;

use crate::text::{owned, parse_i64, parse_i64_spec, push_str};
use crate::time::UtcTime;

pub mod github;
pub mod slack;

verus! {

/// An event as a collector found it, before the store gives it an ID.
#[derive(Debug, Clone, PartialEq, Eq)]
pub struct EventDraft {
    pub source: String,
    pub account_id: i64,
    pub external_id: String,
    pub title: String,
    pub body: Option<String>,
    pub url: Option<String>,
    pub actor: Option<String>,
    pub reason: Option<String>,
    pub occurred_at: UtcTime,
    /// The raw payload from the source, as JSON text.
    pub raw_json: String,
}

/// What one collection produced: new events, the cursor to resume from, and
/// when the source asks to be polled again.
#[derive(Debug, Clone, PartialEq, Eq)]
pub struct CollectOutcome {
    pub events: Vec<EventDraft>,
    pub cursor_value: Option<String>,
    pub poll_after: Option<UtcTime>,
}

impl CollectOutcome {
    /// Nothing collected, no cursor, no hint.
    pub fn empty() -> (r: Self)
        ensures
            r.events@.len() == 0,
            r.cursor_value is None,
            r.poll_after is None,
    {
        CollectOutcome { events: Vec::new(), cursor_value: None, poll_after: None }
    }
}


/// The `Authorization` value for a token: `Bearer <token>`.
pub fn bearer_value(token: &str) -> (r: String)
    ensures
        r@ == "Bearer "@ + token@,
{
    let mut r = owned("Bearer ");
    push_str(&mut r, token);
    r
}

/// An HTTP status in the success range.
pub open spec fn is_success_code(code: u16) -> bool {
    200 <= code <= 299
}

/// A header that names a number of seconds can be added to `now`: chrono
/// takes at most `i64::MAX / 1000` seconds either way, and the sum stays in
/// range.
pub open spec fn header_seconds_ok(header: Option<&str>, now: UtcTime) -> bool {
    header is Some ==> match parse_i64_spec(header->Some_0@) {
        Some(v) => -(i64::MAX / 1000) <= v <= i64::MAX / 1000 && i64::MIN <= now.secs + v
            <= i64::MAX,
        None => true,
    }
}

/// `now` plus the seconds that the header names, where it is an integer.
pub open spec fn header_time(header: Option<&str>, now: UtcTime) -> Option<UtcTime> {
    match header {
        Some(h) => match parse_i64_spec(h@) {
            Some(v) => Some(UtcTime { secs: (now.secs + v) as i64, nanos: now.nanos }),
            None => None,
        },
        None => None,
    }
}

/// The time that a header of seconds names, counted from `now`.
pub fn seconds_after_header(header: Option<&str>, now: UtcTime) -> (r: Option<UtcTime>)
    requires
        header_seconds_ok(header, now),
    ensures
        r == header_time(header, now),
{
    match header {
        Some(h) => match parse_i64(h) {
            Some(v) => Some(UtcTime { secs: now.secs + v, nanos: now.nanos }),
            None => None,
        },
        None => None,
    }
}

} // verus!
