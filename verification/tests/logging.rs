use signalpane::config::Secrets;
use signalpane::logging::{
    cap_plan, capped_log, log_line, log_tail_of, tail_text, CapPlan, LogCapOutcome,
    SecretRedactor, DEFAULT_LOG_LINES, MAX_DAEMON_LOG_BYTES, RETAIN_DAEMON_LOG_BYTES,
};

#[test]
fn logging_reads_tail_of_existing_log() {
    let logs = log_tail_of("/tmp/daemon.log".to_string(), Some("one\ntwo\nthree\n".to_string()), 2);

    assert!(logs.exists);
    assert_eq!(logs.content, "two\nthree\n");
}

#[test]
fn missing_log_returns_empty_tail() {
    let logs = log_tail_of("/tmp/missing.log".to_string(), None, 100);

    assert!(!logs.exists);
    assert!(logs.content.is_empty());
}

#[test]
fn tail_handles_zero_lines_crlf_and_missing_final_newline() {
    assert_eq!(tail_text("one\ntwo\n", 0), "");
    assert_eq!(tail_text("", 5), "");
    assert_eq!(tail_text("a\r\nb\r\n", 5), "a\nb\n");
    assert_eq!(tail_text("a\nb", 1), "b\n");
    assert_eq!(tail_text("a\n\nb\n", 2), "\nb\n");
    assert_eq!(tail_text("\n", 3), "");
    assert_eq!(tail_text("a\n\n", 1), "");
    assert_eq!(tail_text("a\n\n", 2), "a\n\n");
}

#[test]
fn log_constants_match_the_documented_limits() {
    assert_eq!(DEFAULT_LOG_LINES, 100);
    assert_eq!(MAX_DAEMON_LOG_BYTES, 1024 * 1024);
    assert_eq!(RETAIN_DAEMON_LOG_BYTES, 512 * 1024);
}

#[test]
fn redactor_replaces_trimmed_values_longest_first() {
    let redactor = SecretRedactor::from_values(vec![
        " abc ".to_string(),
        "abcdef".to_string(),
        "".to_string(),
        "   ".to_string(),
        "abc".to_string(),
    ]);
    assert_eq!(redactor.redact("x abcdef y abc z"), "x [REDACTED] y [REDACTED] z");
    assert_eq!(SecretRedactor::default().redact("nothing"), "nothing");
    assert_eq!(SecretRedactor::new().redact("abc"), "abc");
}

#[test]
fn append_line_redacts_known_secret_values() {
    let redactor = SecretRedactor::from_secrets(&Secrets {
        github_token: Some("ghp_secret".to_string()),
        slack_user_token: Some("xoxp-secret".to_string()),
        slack_user_id: Some("U123".to_string()),
    });

    let log = log_line(
        "2026-05-26T01:02:03+00:00",
        "github=ghp_secret slack=xoxp-secret user=U123",
        &redactor,
    );

    assert_eq!(
        log,
        "2026-05-26T01:02:03+00:00 github=[REDACTED] slack=[REDACTED] user=[REDACTED]\n"
    );
    assert!(!log.contains("ghp_secret"));
    assert!(!log.contains("xoxp-secret"));
    assert!(!log.contains("U123"));
}

#[test]
fn cap_keeps_small_log_and_plans_cut_of_large_one() {
    assert_eq!(cap_plan(10, 1024, 512), CapPlan::Keep);
    assert_eq!(cap_plan(1024, 1024, 512), CapPlan::Keep);
    assert_eq!(cap_plan(43, 24, 16), CapPlan::Rewrite { start: 27 });
    assert_eq!(cap_plan(43, 24, 100), CapPlan::Rewrite { start: 0 });
}

#[test]
fn capped_log_drops_partial_line_redacts_and_marks_it() {
    let original = "old secret-token line\nkeep-1\nkeep-2\nkeep-3\n";
    assert_eq!(original.len(), 43);
    let start = match cap_plan(43, 24, 16) {
        CapPlan::Rewrite { start } => start,
        CapPlan::Keep => panic!("log should be capped"),
    };
    let tail = original.as_bytes()[start as usize..].to_vec();
    let redactor = SecretRedactor::from_values(vec!["secret-token".to_string()]);

    let (capped, outcome) = capped_log("NOW", 43, 24, 16, start, &tail, &redactor);

    assert_eq!(
        outcome,
        LogCapOutcome::Capped {
            original_bytes: 43,
            retained_bytes: capped.len() as u64,
        }
    );
    assert_eq!(
        capped,
        "NOW log capped original_bytes=43 max_bytes=24 retained_target_bytes=16\nkeep-2\nkeep-3\n"
    );
    assert!(!capped.contains("keep-1"));
    assert!(!capped.contains("secret-token"));
}

#[test]
fn capped_log_from_start_keeps_everything_and_redacts() {
    let tail = b"a secret-token\nb\n".to_vec();
    let redactor = SecretRedactor::from_values(vec!["secret-token".to_string()]);
    let (capped, _) = capped_log("T", 100, 10, 200, 0, &tail, &redactor);
    assert_eq!(
        capped,
        "T log capped original_bytes=100 max_bytes=10 retained_target_bytes=200\na [REDACTED]\nb\n"
    );
}
