use signalpane::collectors::github::{
    classify_notifications_status, github_poll_after, github_threads_to_event_drafts,
    not_modified_outcome, notifications_outcome, GithubRepository, GithubSubject, GithubThread,
    NotificationsStatus,
};
use signalpane::collectors::slack::{
    auth_status_error, auth_user_id, classify_history_status, history_outcome, history_query,
    latest_message_ts, parse_retry_after, rate_limited_outcome, slack_messages_to_event_drafts,
    slack_ts_to_datetime, HistoryStatus, SlackAuthResponse, SlackHistoryResponse, SlackMessage,
};
use signalpane::collectors::{bearer_value, CollectOutcome};
use signalpane::time::UtcTime;

fn thread(id: &str, unread: bool, reason: &str) -> GithubThread {
    GithubThread {
        id: id.to_string(),
        unread,
        reason: reason.to_string(),
        updated_at: UtcTime { secs: 1_779_757_323, nanos: 0 },
        subject: GithubSubject {
            title: format!("Subject {id}"),
            kind: "PullRequest".to_string(),
            url: Some(format!("https://api.github.com/repos/o/r/pulls/{id}")),
            latest_comment_url: None,
        },
        repository: GithubRepository {
            full_name: "octo/repo".to_string(),
            html_url: Some("https://github.com/octo/repo".to_string()),
        },
        raw_json: format!("{{\"id\":\"{id}\"}}"),
    }
}

fn github_fixture() -> Vec<GithubThread> {
    vec![
        thread("1", true, "mention"),
        thread("2", true, "team_mention"),
        thread("3", true, "review_requested"),
        thread("4", true, "subscribed"),
        thread("5", false, "mention"),
        thread("6", true, "author"),
    ]
}

fn message(ts: &str, text: Option<&str>, user: Option<&str>) -> SlackMessage {
    SlackMessage {
        ts: ts.to_string(),
        text: text.map(str::to_string),
        user: user.map(str::to_string),
        username: None,
        permalink: Some(format!("https://example.slack.com/archives/C123/p{ts}")),
        raw_json: format!("{{\"ts\":\"{ts}\"}}"),
    }
}

fn slack_fixture() -> SlackHistoryResponse {
    SlackHistoryResponse {
        ok: true,
        messages: vec![
            message("1779757320.000100", Some("hi <@U123> please review"), Some("U777")),
            message("1779757321.000100", Some("<!here> deploy is done"), Some("U778")),
            message("1779757322.000100", Some("ping <@U999>"), Some("U779")),
            message("1779757325.000100", Some("<@U123>: thanks"), Some("U780")),
            message("1779757327.000100", Some("no mention at all"), Some("U781")),
            message("1779757310.000100", None, Some("U782")),
        ],
        error: None,
    }
}

#[test]
fn filters_github_notification_reasons() {
    let events = github_threads_to_event_drafts(7, github_fixture());

    assert_eq!(events.len(), 3);
    assert!(events.iter().all(|event| event.source == "github"));
    assert!(events.iter().any(|event| event.reason.as_deref() == Some("mention")));
    assert!(events.iter().any(|event| event.reason.as_deref() == Some("team_mention")));
    assert!(events.iter().any(|event| event.reason.as_deref() == Some("review_requested")));
}

#[test]
fn github_draft_fields_follow_the_thread() {
    let mut t = thread("9", true, "mention");
    t.subject.latest_comment_url = Some("https://api.github.com/comments/1".to_string());
    let events = github_threads_to_event_drafts(7, vec![t]);
    let e = &events[0];
    assert_eq!(e.account_id, 7);
    assert_eq!(e.external_id, "9");
    assert_eq!(e.title, "octo/repo: Subject 9");
    assert_eq!(e.body.as_deref(), Some("PullRequest"));
    assert_eq!(e.url.as_deref(), Some("https://api.github.com/comments/1"));
    assert_eq!(e.actor, None);
    assert_eq!(e.raw_json, "{\"id\":\"9\"}");

    let mut t = thread("10", true, "mention");
    t.subject.url = None;
    let events = github_threads_to_event_drafts(7, vec![t]);
    assert_eq!(events[0].url.as_deref(), Some("https://github.com/octo/repo"));
}

#[test]
fn parses_github_poll_interval_header() {
    let now = UtcTime { secs: 1_000, nanos: 5 };
    let poll_after = github_poll_after(Some("42"), now).expect("poll interval");
    assert_eq!(poll_after, UtcTime { secs: 1_042, nanos: 5 });
    assert_eq!(github_poll_after(Some("soon"), now), None);
    assert_eq!(github_poll_after(None, now), None);
}

#[test]
fn github_status_codes_choose_the_outcome() {
    assert_eq!(
        classify_notifications_status(304, "304 Not Modified"),
        NotificationsStatus::NotModified
    );
    assert_eq!(classify_notifications_status(200, "200 OK"), NotificationsStatus::Body);
    assert_eq!(
        classify_notifications_status(401, "401 Unauthorized"),
        NotificationsStatus::Failed(
            "GitHub notifications request failed with status 401 Unauthorized".to_string()
        )
    );
    let outcome = not_modified_outcome(Some("Tue, 26 May 2026 01:02:03 GMT".to_string()), None);
    assert!(outcome.events.is_empty());
    assert_eq!(outcome.cursor_value.as_deref(), Some("Tue, 26 May 2026 01:02:03 GMT"));
    let outcome = notifications_outcome(7, github_fixture(), None, Some(UtcTime { secs: 5, nanos: 0 }));
    assert_eq!(outcome.events.len(), 3);
    assert_eq!(outcome.poll_after, Some(UtcTime { secs: 5, nanos: 0 }));
}

#[test]
fn filters_only_direct_user_mentions() {
    let history = slack_fixture();

    let events =
        slack_messages_to_event_drafts(9, "C123", "U123", history.messages).expect("events");

    assert_eq!(events.len(), 2);
    assert!(events.iter().all(|event| event.source == "slack"));
    assert!(events
        .iter()
        .all(|event| event.body.as_deref().unwrap_or("").contains("<@U123>")));
    assert_eq!(events[0].external_id, "C123:1779757320.000100");
    assert_eq!(events[0].title, "Slack mention in C123");
    assert_eq!(events[0].actor.as_deref(), Some("U777"));
    assert_eq!(events[0].reason.as_deref(), Some("mention"));
    assert_eq!(events[0].occurred_at, UtcTime { secs: 1_779_757_320, nanos: 100_000 });
}

#[test]
fn cursor_uses_latest_seen_message_not_latest_mention() {
    let history = slack_fixture();

    assert_eq!(
        latest_message_ts(&history.messages),
        Some("1779757327.000100".to_string())
    );
    assert_eq!(latest_message_ts(&Vec::new()), None);
}

#[test]
fn slack_ts_parses_seconds_and_micros() {
    assert_eq!(
        slack_ts_to_datetime("1779757327.000100"),
        Some(UtcTime { secs: 1_779_757_327, nanos: 100_000 })
    );
    assert_eq!(
        slack_ts_to_datetime("12.1234567"),
        Some(UtcTime { secs: 12, nanos: 123_456_000 })
    );
    assert_eq!(slack_ts_to_datetime("1779757327"), None);
    assert_eq!(slack_ts_to_datetime("abc.000100"), None);
    assert_eq!(slack_ts_to_datetime("9223372036854775807.000000"), None);
}

#[test]
fn invalid_mention_ts_fails_the_batch() {
    let messages = vec![message("bad", Some("<@U123>"), None)];
    assert_eq!(
        slack_messages_to_event_drafts(1, "C1", "U123", messages),
        Err("invalid Slack ts bad".to_string())
    );
    let ignored = vec![message("bad", Some("no mention"), None)];
    assert_eq!(slack_messages_to_event_drafts(1, "C1", "U123", ignored), Ok(Vec::new()));
}

#[test]
fn history_outcome_moves_cursor_or_keeps_it() {
    let outcome =
        history_outcome(9, "C123", "U123", Some("1".to_string()), slack_fixture()).expect("outcome");
    assert_eq!(outcome.events.len(), 2);
    assert_eq!(outcome.cursor_value.as_deref(), Some("1779757327.000100"));
    assert_eq!(outcome.poll_after, None);

    let empty = SlackHistoryResponse { ok: true, messages: Vec::new(), error: None };
    let outcome = history_outcome(9, "C123", "U123", Some("1".to_string()), empty).expect("outcome");
    assert_eq!(outcome.cursor_value.as_deref(), Some("1"));

    let failed = SlackHistoryResponse {
        ok: false,
        messages: Vec::new(),
        error: Some("channel_not_found".to_string()),
    };
    assert_eq!(
        history_outcome(9, "C123", "U123", None, failed),
        Err("Slack conversations.history returned error: channel_not_found".to_string())
    );
}

#[test]
fn slack_rate_limit_keeps_cursor_and_waits() {
    let now = UtcTime { secs: 100, nanos: 0 };
    let after = parse_retry_after(Some("30"), now);
    assert_eq!(after, Some(UtcTime { secs: 130, nanos: 0 }));
    assert_eq!(parse_retry_after(Some("x"), now), None);
    let outcome: CollectOutcome = rate_limited_outcome(Some("5".to_string()), after);
    assert!(outcome.events.is_empty());
    assert_eq!(outcome.cursor_value.as_deref(), Some("5"));
    assert_eq!(outcome.poll_after, Some(UtcTime { secs: 130, nanos: 0 }));
    assert_eq!(classify_history_status(429, "429 Too Many Requests"), HistoryStatus::RateLimited);
    assert_eq!(
        classify_history_status(500, "500 Internal Server Error"),
        HistoryStatus::Failed(
            "Slack conversations.history failed with status 500 Internal Server Error".to_string()
        )
    );
    assert_eq!(classify_history_status(200, "200 OK"), HistoryStatus::Body);
}

#[test]
fn slack_requests_and_auth_answers() {
    let q = history_query("C1", Some("123.4"));
    let q: Vec<(&str, &str)> = q.iter().map(|(k, v)| (k.as_str(), v.as_str())).collect();
    assert_eq!(
        q,
        vec![("channel", "C1"), ("limit", "100"), ("oldest", "123.4"), ("inclusive", "false")]
    );
    assert_eq!(history_query("C1", None).len(), 2);
    assert_eq!(bearer_value("xoxp-1"), "Bearer xoxp-1");
    assert_eq!(
        auth_user_id(SlackAuthResponse { ok: true, user_id: Some("U1".to_string()), error: None }),
        Ok("U1".to_string())
    );
    assert_eq!(
        auth_user_id(SlackAuthResponse { ok: false, user_id: None, error: None }),
        Err("Slack auth.test returned error: unknown".to_string())
    );
    assert_eq!(
        auth_user_id(SlackAuthResponse { ok: true, user_id: None, error: None }),
        Err("Slack auth.test did not return user_id".to_string())
    );
    assert_eq!(auth_status_error(200, "200 OK"), None);
    assert_eq!(
        auth_status_error(403, "403 Forbidden"),
        Some("Slack auth.test failed with status 403 Forbidden".to_string())
    );
}

#[test]
fn empty_outcome_has_nothing() {
    let o = CollectOutcome::empty();
    assert!(o.events.is_empty());
    assert_eq!(o.cursor_value, None);
    assert_eq!(o.poll_after, None);
}
