use signalpane::model::Account;
use signalpane::store::{
    cursor_failure_write, cursor_health, cursor_success_write, merged_metadata,
    metadata_datetime, source_cursor_from_stored, source_status_from_cursor,
    statuses_from_snapshots, AccountSnapshot, MetaValue, Metadata, StoredCursor,
};
use signalpane::time::UtcTime;

const NOW: &str = "2026-05-26T01:02:03+00:00";

fn meta(entries: &[(&str, MetaValue)]) -> Metadata {
    Metadata::from_entries(
        entries.iter().map(|(k, v)| (k.to_string(), v.clone())).collect(),
    )
}

fn text(s: &str) -> MetaValue {
    MetaValue::Text(s.to_string())
}

fn account(source: &str, label: &str) -> Account {
    Account {
        id: 1,
        source: source.to_string(),
        label: label.to_string(),
        external_account_id: "default".to_string(),
        enabled: true,
    }
}

#[test]
fn metadata_insert_get_and_remove() {
    let mut m = Metadata::new();
    assert_eq!(m.get("a"), None);
    m.insert("a".to_string(), text("1"));
    m.insert("b".to_string(), MetaValue::Unsigned(2));
    m.insert("a".to_string(), text("3"));
    assert_eq!(m.get("a"), Some(&text("3")));
    assert_eq!(m.get("b"), Some(&MetaValue::Unsigned(2)));
    m.remove("a");
    assert_eq!(m.get("a"), None);
    assert_eq!(m.entries().len(), 1);
    let later_wins = meta(&[("k", text("x")), ("k", text("y"))]);
    assert_eq!(later_wins.get("k"), Some(&text("y")));
}

#[test]
fn merge_keeps_previous_keys_and_lets_overlay_win() {
    let previous = meta(&[("channel", text("C1")), ("keep", MetaValue::Other("[1,2]".to_string()))]);
    let overlay = meta(&[("channel", text("C2"))]);
    let merged = merged_metadata(Some(&previous), &overlay);
    assert_eq!(merged.get("channel"), Some(&text("C2")));
    assert_eq!(merged.get("keep"), Some(&MetaValue::Other("[1,2]".to_string())));
    let fresh = merged_metadata(None, &overlay);
    assert_eq!(fresh.get("keep"), None);
}

#[test]
fn cursor_failure_metadata_surfaces_in_health() {
    let write = cursor_failure_write(
        None,
        "request timed out",
        2,
        Some(UtcTime { secs: 1_779_757_383, nanos: 0 }),
        &Metadata::new(),
        NOW,
    );
    assert_eq!(write.cursor_value, None);
    let health = cursor_health(&write.metadata);
    assert_eq!(health.last_error.as_deref(), Some("request timed out"));
    assert_eq!(health.consecutive_failures, 2);
    assert_eq!(health.last_error_at, Some(UtcTime { secs: 1_779_757_323, nanos: 0 }));
    assert_eq!(health.last_success_at, None);
}

#[test]
fn cursor_success_clears_error_metadata_and_keeps_the_rest() {
    let failed = cursor_failure_write(None, "request timed out", 3, None, &Metadata::new(), NOW);
    let previous = StoredCursor {
        cursor_value: Some("old".to_string()),
        poll_after: None,
        metadata: failed.metadata,
    };
    let success = cursor_success_write(
        Some(&previous),
        Some("Tue, 26 May 2026 01:02:03 GMT".to_string()),
        None,
        &meta(&[("channel", text("C2"))]),
        "2026-05-26T01:04:03Z",
    );
    assert_eq!(success.cursor_value.as_deref(), Some("Tue, 26 May 2026 01:02:03 GMT"));
    let health = cursor_health(&success.metadata);
    assert_eq!(health.last_error, None);
    assert_eq!(health.last_error_at, None);
    assert_eq!(health.consecutive_failures, 0);
    assert_eq!(health.last_success_at, Some(UtcTime { secs: 1_779_757_443, nanos: 0 }));
    assert_eq!(success.metadata.get("channel"), Some(&text("C2")));
}

#[test]
fn failure_keeps_the_previous_cursor_value() {
    let previous = StoredCursor {
        cursor_value: Some("1779757327.000100".to_string()),
        poll_after: None,
        metadata: Metadata::new(),
    };
    let write = cursor_failure_write(Some(&previous), "boom", 1, None, &Metadata::new(), NOW);
    assert_eq!(write.cursor_value.as_deref(), Some("1779757327.000100"));
}

#[test]
fn health_ignores_unreadable_values() {
    let m = meta(&[
        ("last_error", text("")),
        ("consecutive_failures", MetaValue::Unsigned(u64::from(u32::MAX) + 1)),
        ("last_success_at", text("not a time")),
        ("last_error_at", MetaValue::Unsigned(3)),
    ]);
    let health = cursor_health(&m);
    assert_eq!(health.last_error, None);
    assert_eq!(health.consecutive_failures, 0);
    assert_eq!(health.last_success_at, None);
    assert_eq!(health.last_error_at, None);
    assert_eq!(
        metadata_datetime(&meta(&[("t", text("2026-05-26T03:02:03+02:00"))]), "t"),
        Some(UtcTime { secs: 1_779_757_323, nanos: 0 })
    );
}

#[test]
fn source_statuses_expose_each_cursor_and_sources_without_cursors() {
    let failed = cursor_failure_write(
        None,
        "Slack conversations.history failed",
        2,
        Some(UtcTime { secs: 10, nanos: 0 }),
        &meta(&[("channel", text("C1"))]),
        NOW,
    );
    let succeeded = cursor_success_write(
        None,
        Some("1779757327.000100".to_string()),
        Some(UtcTime { secs: 20, nanos: 0 }),
        &meta(&[("channel", text("C2"))]),
        NOW,
    );
    let snapshots = vec![
        AccountSnapshot { account: account("github", "GitHub"), unread_count: 0, cursors: Vec::new() },
        AccountSnapshot {
            account: account("slack", "Slack"),
            unread_count: 4,
            cursors: vec![
                (
                    "channel:C1".to_string(),
                    StoredCursor {
                        cursor_value: failed.cursor_value,
                        poll_after: failed.poll_after,
                        metadata: failed.metadata,
                    },
                ),
                (
                    "channel:C2".to_string(),
                    StoredCursor {
                        cursor_value: succeeded.cursor_value,
                        poll_after: succeeded.poll_after,
                        metadata: succeeded.metadata,
                    },
                ),
            ],
        },
    ];

    let statuses = statuses_from_snapshots(snapshots);

    assert_eq!(statuses.len(), 3);
    assert_eq!(statuses[0].source, "github");
    assert_eq!(statuses[0].cursor_key, None);
    assert_eq!(statuses[0].last_cursor, None);
    assert_eq!(statuses[0].consecutive_failures, 0);
    let c1 = &statuses[1];
    assert_eq!(c1.cursor_key.as_deref(), Some("channel:C1"));
    assert_eq!(c1.last_error.as_deref(), Some("Slack conversations.history failed"));
    assert_eq!(c1.consecutive_failures, 2);
    assert_eq!(c1.poll_after, Some(UtcTime { secs: 10, nanos: 0 }));
    assert_eq!(c1.unread_count, 4);
    let c2 = &statuses[2];
    assert_eq!(c2.cursor_key.as_deref(), Some("channel:C2"));
    assert_eq!(c2.last_cursor.as_deref(), Some("1779757327.000100"));
    assert_eq!(c2.last_error, None);
    assert_eq!(c2.consecutive_failures, 0);
    assert_eq!(c2.poll_after, Some(UtcTime { secs: 20, nanos: 0 }));
}

#[test]
fn stored_cursor_state_reports_its_health() {
    let write = cursor_failure_write(None, "x", 4, None, &Metadata::new(), NOW);
    let state = source_cursor_from_stored(StoredCursor {
        cursor_value: Some("c".to_string()),
        poll_after: Some(UtcTime { secs: 1, nanos: 2 }),
        metadata: write.metadata,
    });
    assert_eq!(state.cursor_value.as_deref(), Some("c"));
    assert_eq!(state.poll_after, Some(UtcTime { secs: 1, nanos: 2 }));
    assert_eq!(state.consecutive_failures, 4);
    assert_eq!(state.last_error.as_deref(), Some("x"));
    let status = source_status_from_cursor(&account("github", "GitHub"), 7, None);
    assert_eq!(status.label, "GitHub");
    assert_eq!(status.unread_count, 7);
    assert!(status.enabled);
}
