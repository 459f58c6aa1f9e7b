//! The records that the store keeps and that the daemon serves over IPC.
use vstd::prelude::*;

use crate::time::UtcTime;

verus! {

/// A configured account of one source.
#[derive(Debug, Clone, PartialEq, Eq)]
pub struct Account {
    pub id: i64,
    pub source: String,
    pub label: String,
    pub external_account_id: String,
    pub enabled: bool,
}

/// A stored notification.
#[derive(Debug, Clone, PartialEq, Eq)]
pub struct Event {
    pub id: i64,
    pub source: String,
    pub account_id: i64,
    pub external_id: String,
    pub title: String,
    pub body: Option<String>,
    pub url: Option<String>,
    pub actor: Option<String>,
    pub reason: Option<String>,
    pub occurred_at: UtcTime,
    pub received_at: UtcTime,
    pub read_at: Option<UtcTime>,
    /// The raw payload from the source, as JSON text.
    pub raw_json: String,
}

/// The health of one cursor of a source (or of a source without cursors).
#[derive(Debug, Clone, PartialEq, Eq)]
pub struct SourceStatus {
    pub source: String,
    pub label: String,
    pub enabled: bool,
    pub unread_count: i64,
    pub cursor_key: Option<String>,
    pub last_cursor: Option<String>,
    pub poll_after: Option<UtcTime>,
    pub last_success_at: Option<UtcTime>,
    pub last_error_at: Option<UtcTime>,
    pub last_error: Option<String>,
    pub consecutive_failures: u32,
}

/// Event counts and source health.
#[derive(Debug, Clone, PartialEq, Eq)]
pub struct AppStatus {
    pub unread_count: i64,
    pub total_count: i64,
    pub sources: Vec<SourceStatus>,
}

} // verus!
