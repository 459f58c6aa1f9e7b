use signalpane::config::{Config, GithubConfig, Secrets, SlackConfig};
use signalpane::daemon::{
    accounts_to_bootstrap, cap_log_message, collection_jobs, CollectionJob, collector_error_text, collectors_to_run,
    compact_error_message, failure_backoff_seconds, failure_log_message, failure_update,
    github_cursor_key, should_skip_poll, slack_cursor_key, socket_preparation,
    success_cursor_update, SocketPreparation, COLLECTOR_LOOP_SECONDS,
};
use signalpane::daemon::{round_step, JobOutcome, RoundAction};
use signalpane::logging::{LogCapOutcome, SecretRedactor};
use signalpane::time::UtcTime;

#[test]
fn failure_backoff_exponentially_increases_and_caps() {
    assert_eq!(failure_backoff_seconds(1), 60);
    assert_eq!(failure_backoff_seconds(2), 120);
    assert_eq!(failure_backoff_seconds(99), 900);
}

#[test]
fn backoff_doubles_up_to_fifteen_minutes() {
    assert_eq!(failure_backoff_seconds(0), 60);
    assert_eq!(failure_backoff_seconds(3), 240);
    assert_eq!(failure_backoff_seconds(4), 480);
    assert_eq!(failure_backoff_seconds(5), 900);
    assert_eq!(failure_backoff_seconds(u32::MAX), 900);
    assert_eq!(COLLECTOR_LOOP_SECONDS, 30);
}

#[test]
fn collector_failure_text_is_compacted_and_redacted() {
    let redactor = SecretRedactor::from_values(vec!["ghp_secret".to_string()]);
    let error = collector_error_text("request failed with\n  ghp_secret", &redactor);
    assert_eq!(error, "request failed with [REDACTED]");
    let line = failure_log_message("github", "notifications", 3, &error);
    assert_eq!(
        line,
        "github/notifications collector error failures=3: request failed with [REDACTED]"
    );
    assert!(!line.contains("ghp_secret"));
}

#[test]
fn compact_error_message_squeezes_whitespace_and_truncates() {
    assert_eq!(compact_error_message("  a \t b\n\nc  "), "a b c");
    assert_eq!(compact_error_message(""), "");
    let long = "x".repeat(600);
    let compact = compact_error_message(&long);
    assert_eq!(compact.chars().count(), 512);
    assert!(compact.ends_with("..."));
    assert_eq!(compact_error_message(&"y".repeat(512)), "y".repeat(512));
}

#[test]
fn poll_is_skipped_only_before_poll_after() {
    let now = UtcTime { secs: 100, nanos: 0 };
    assert!(should_skip_poll(Some(UtcTime { secs: 101, nanos: 0 }), now));
    assert!(should_skip_poll(Some(UtcTime { secs: 100, nanos: 1 }), now));
    assert!(!should_skip_poll(Some(now), now));
    assert!(!should_skip_poll(Some(UtcTime { secs: 99, nanos: 0 }), now));
    assert!(!should_skip_poll(None, now));
}

#[test]
fn success_prefers_api_hint_and_reported_cursor() {
    let now = UtcTime { secs: 1_000, nanos: 7 };
    let (cursor, after) =
        success_cursor_update(None, None, Some("old".to_string()), 60, now);
    assert_eq!(cursor.as_deref(), Some("old"));
    assert_eq!(after, UtcTime { secs: 1_060, nanos: 7 });
    let hint = UtcTime { secs: 5_000, nanos: 0 };
    let (cursor, after) =
        success_cursor_update(Some("new".to_string()), Some(hint), Some("old".to_string()), 60, now);
    assert_eq!(cursor.as_deref(), Some("new"));
    assert_eq!(after, hint);
}

#[test]
fn intervals_past_i64_wrap_below_zero_as_a_cast_does() {
    let now = UtcTime { secs: 1_000, nanos: 0 };
    let (_, after) = success_cursor_update(None, None, None, u64::MAX, now);
    assert_eq!(after, UtcTime { secs: 999, nanos: 0 });
    let (_, after) = success_cursor_update(None, None, None, u64::MAX - 59, now);
    assert_eq!(after, UtcTime { secs: 940, nanos: 0 });
}

#[test]
fn failures_count_up_and_back_off() {
    let now = UtcTime { secs: 1_000, nanos: 0 };
    assert_eq!(failure_update(None, now), (1, UtcTime { secs: 1_060, nanos: 0 }));
    assert_eq!(failure_update(Some(0), now), (1, UtcTime { secs: 1_060, nanos: 0 }));
    assert_eq!(failure_update(Some(2), now), (3, UtcTime { secs: 1_240, nanos: 0 }));
    assert_eq!(failure_update(Some(u32::MAX), now), (u32::MAX, UtcTime { secs: 1_900, nanos: 0 }));
}

#[test]
fn collectors_run_only_when_enabled_with_credentials() {
    let config = Config {
        github: GithubConfig { enabled: true, poll_interval_seconds: 60 },
        slack: SlackConfig { enabled: true, channels: Vec::new(), poll_interval_seconds: 60 },
    };
    let secrets = Secrets {
        github_token: Some("t".to_string()),
        slack_user_token: Some("s".to_string()),
        slack_user_id: None,
    };
    assert_eq!(accounts_to_bootstrap(&config, &secrets), (true, true));
    assert_eq!(collectors_to_run(&config, &secrets), (true, false));
    let with_channels = Config {
        slack: SlackConfig {
            enabled: true,
            channels: vec!["C1".to_string()],
            poll_interval_seconds: 60,
        },
        ..config.clone()
    };
    assert_eq!(collectors_to_run(&with_channels, &secrets), (true, true));
    let none = Secrets { github_token: None, slack_user_token: None, slack_user_id: None };
    assert_eq!(collectors_to_run(&with_channels, &none), (false, false));
    assert_eq!(slack_cursor_key("C1"), "channel:C1");
    assert_eq!(github_cursor_key(), "notifications");
}

#[test]
fn stale_socket_is_removed_and_live_socket_is_not() {
    assert_eq!(socket_preparation("/tmp/s.sock", false, false), SocketPreparation::Ready);
    assert_eq!(socket_preparation("/tmp/s.sock", true, false), SocketPreparation::RemoveStale);
    match socket_preparation("/tmp/s.sock", true, true) {
        SocketPreparation::AlreadyRunning(message) => {
            assert!(message.contains("already running"));
            assert_eq!(message, "signalpane daemon already running at /tmp/s.sock");
        }
        other => panic!("unexpected preparation: {other:?}"),
    }
}

#[test]
fn startup_log_cap_is_logged_only_when_cut() {
    assert_eq!(cap_log_message(LogCapOutcome::Missing), None);
    assert_eq!(cap_log_message(LogCapOutcome::Unchanged { bytes: 3 }), None);
    assert_eq!(
        cap_log_message(LogCapOutcome::Capped { original_bytes: 43, retained_bytes: 20 }),
        Some("daemon log capped original_bytes=43 retained_bytes=20".to_string())
    );
}

#[test]
fn a_round_polls_github_then_each_channel_once() {
    let config = Config {
        github: GithubConfig { enabled: true, poll_interval_seconds: 60 },
        slack: SlackConfig {
            enabled: true,
            channels: vec!["C1".to_string(), "C2".to_string()],
            poll_interval_seconds: 60,
        },
    };
    let secrets = Secrets {
        github_token: Some("t".to_string()),
        slack_user_token: Some("s".to_string()),
        slack_user_id: None,
    };
    assert_eq!(
        collection_jobs(&config, &secrets),
        vec![
            CollectionJob::Github,
            CollectionJob::SlackChannel { channel: "C1".to_string() },
            CollectionJob::SlackChannel { channel: "C2".to_string() },
        ]
    );
    let slack_only = Secrets { github_token: None, ..secrets.clone() };
    assert_eq!(
        collection_jobs(&config, &slack_only),
        vec![
            CollectionJob::SlackChannel { channel: "C1".to_string() },
            CollectionJob::SlackChannel { channel: "C2".to_string() },
        ]
    );
    let none = Secrets { github_token: None, slack_user_token: None, slack_user_id: None };
    assert!(collection_jobs(&config, &none).is_empty());
}

#[test]
fn a_failing_collector_does_not_stop_the_round() {
    assert_eq!(round_step(3, 0, JobOutcome::CollectorFailed), RoundAction::RunJob(1));
    assert_eq!(round_step(3, 1, JobOutcome::Skipped), RoundAction::RunJob(2));
    assert_eq!(round_step(3, 2, JobOutcome::CollectorFailed), RoundAction::Finished);
    assert_eq!(round_step(3, 1, JobOutcome::Collected), RoundAction::RunJob(2));
    assert_eq!(round_step(3, 0, JobOutcome::StoreFailed), RoundAction::Abort);
    assert_eq!(round_step(1, 0, JobOutcome::Collected), RoundAction::Finished);
}
