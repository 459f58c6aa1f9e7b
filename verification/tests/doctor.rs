use signalpane::config::{AppPaths, Config, GithubConfig, Secrets, SlackConfig};
use signalpane::doctor::{check, DoctorObservations, OverallStatus};
use signalpane::launch_agent::{DaemonIpcStatus, LaunchAgentStatus, LABEL};

fn paths() -> AppPaths {
    AppPaths::from_bases("/tmp/doctor/cfg".to_string(), "/tmp/doctor/state".to_string())
}

fn config(github: bool, slack: bool) -> Config {
    Config {
        github: GithubConfig { enabled: github, poll_interval_seconds: 60 },
        slack: SlackConfig { enabled: slack, channels: Vec::new(), poll_interval_seconds: 60 },
    }
}

fn no_secrets() -> Secrets {
    Secrets { github_token: None, slack_user_token: None, slack_user_id: None }
}

fn all_secrets() -> Secrets {
    Secrets {
        github_token: Some("ghp-secret".to_string()),
        slack_user_token: Some("xoxp-secret".to_string()),
        slack_user_id: Some("U123".to_string()),
    }
}

fn observations(paths: &AppPaths, config: Result<Config, String>, secrets: Secrets) -> DoctorObservations {
    DoctorObservations {
        config_exists: true,
        config,
        secrets: Ok(secrets),
        current_binary_path: Ok("/Users/alice/.local/bin/signalpane".to_string()),
        launch_agent_status: Ok(LaunchAgentStatus {
            label: LABEL.to_string(),
            loaded: true,
            daemon_ipc: DaemonIpcStatus::Responsive,
            socket_path: paths.socket_file.clone(),
            log_path: paths.daemon_log.clone(),
            plist_path: "/tmp/doctor/state/LaunchAgents/com.faronan.signalpane.plist".to_string(),
            binary_path: "/Users/alice/.local/bin/signalpane".to_string(),
            warnings: Vec::new(),
        }),
        status_plist_exists: true,
        fallback_plist_path: Some(
            "/Users/alice/Library/LaunchAgents/com.faronan.signalpane.plist".to_string(),
        ),
        fallback_plist_exists: false,
        daemon_ipc: DaemonIpcStatus::Responsive,
        socket_exists: true,
        log_exists: true,
        db_exists: true,
    }
}

fn assert_line(output: &str, expected: &str) {
    assert!(
        output.lines().any(|line| line == expected),
        "missing line {expected:?} in:\n{output}"
    );
}

fn assert_line_contains(output: &str, expected: &str) {
    assert!(
        output.lines().any(|line| line.contains(expected)),
        "missing line containing {expected:?} in:\n{output}"
    );
}

#[test]
fn formats_strict_key_value_lines() {
    let paths = paths();
    let obs = observations(&paths, Ok(config(false, false)), no_secrets());

    let output = check(&paths, &obs).to_key_value();

    assert_line(&output, "overall_status=ok");
    for line in output.lines() {
        assert!(line.contains('='), "doctor output line is not key=value: {line:?}");
        assert!(!line.contains('\t'));
        assert!(!line.contains('\r'));
    }
}

#[test]
fn missing_config_uses_defaults_but_reports_missing_file() {
    let paths = paths();
    let mut obs = observations(&paths, Ok(Config::default()), all_secrets());
    obs.config_exists = false;

    let output = check(&paths, &obs).to_key_value();

    assert_line(&output, "config_exists=false");
    assert_line(&output, "config_parse=ok");
    assert_line(&output, "github_enabled=true");
    assert_line(&output, "slack_enabled=true");
    assert_line_contains(&output, "warning=config file does not exist");
}

#[test]
fn invalid_config_reports_parse_error_without_panicking() {
    let paths = paths();
    let obs = observations(
        &paths,
        Err("TOML parse error at line 1, column 8".to_string()),
        no_secrets(),
    );

    let report = check(&paths, &obs);
    let output = report.to_key_value();

    assert!(report.has_errors());
    assert_eq!(report.overall_status(), OverallStatus::Error);
    assert_line(&output, "overall_status=error");
    assert_line(&output, "config_parse=error");
    assert_line(&output, "github_enabled=unknown");
    assert_line_contains(&output, "error=config parse failed:");
}

#[test]
fn enabled_github_without_token_is_error() {
    let paths = paths();
    let obs = observations(&paths, Ok(config(true, false)), no_secrets());

    let output = check(&paths, &obs).to_key_value();

    assert_line(&output, "github_status=error");
    assert_line_contains(
        &output,
        "error=github is enabled but SIGNALPANE_GITHUB_TOKEN is not present",
    );
}

#[test]
fn enabled_slack_without_user_token_is_error() {
    let paths = paths();
    let obs = observations(&paths, Ok(config(false, true)), no_secrets());

    let output = check(&paths, &obs).to_key_value();

    assert_line(&output, "slack_status=error");
    assert_line_contains(
        &output,
        "error=slack is enabled but SIGNALPANE_SLACK_USER_TOKEN is not present",
    );
}

#[test]
fn enabled_slack_without_user_id_is_warning() {
    let paths = paths();
    let secrets = Secrets {
        github_token: None,
        slack_user_token: Some("xoxp-secret".to_string()),
        slack_user_id: None,
    };
    let obs = observations(&paths, Ok(config(false, true)), secrets);

    let report = check(&paths, &obs);
    let output = report.to_key_value();

    assert!(!report.has_errors());
    assert_line(&output, "overall_status=warning");
    assert_line(&output, "slack_status=warning");
    assert_line_contains(
        &output,
        "warning=slack is enabled but SIGNALPANE_SLACK_USER_ID is not present",
    );
}

#[test]
fn binary_path_mismatch_is_surfaced_without_mutating_launch_agent() {
    let paths = paths();
    let mut obs = observations(&paths, Ok(config(false, false)), no_secrets());
    obs.current_binary_path = Ok("/tmp/debug/signalpane".to_string());

    let output = check(&paths, &obs).to_key_value();

    assert_line(&output, "registered_binary_path=/Users/alice/.local/bin/signalpane");
    assert_line(&output, "current_binary_path=/tmp/debug/signalpane");
    assert_line(&output, "binary_path_match=false");
    assert_line_contains(&output, "warning=registered binary differs from current executable");
}

#[test]
fn token_like_values_are_never_rendered() {
    let paths = paths();
    let obs = observations(&paths, Ok(config(true, true)), all_secrets());

    let output = check(&paths, &obs).to_key_value();

    assert!(!output.contains("ghp-secret"));
    assert!(!output.contains("xoxp-secret"));
    assert!(!output.contains("U123"));
    assert_line(&output, "github_token_present=true");
    assert_line(&output, "slack_user_token_present=true");
    assert_line(&output, "slack_user_id_present=true");
}

#[test]
fn unreachable_daemon_and_failed_status_are_errors() {
    let paths = paths();
    let mut obs = observations(&paths, Ok(config(false, false)), no_secrets());
    obs.daemon_ipc = DaemonIpcStatus::Unreachable;
    obs.launch_agent_status = Err("HOME is required".to_string());

    let report = check(&paths, &obs);
    let output = report.to_key_value();

    assert!(report.has_errors());
    assert_line(&output, "overall_status=error");
    assert_line(&output, "daemon_ipc=unreachable");
    assert_line_contains(&output, "error=daemon IPC is unreachable at /tmp/doctor/state/signalpane.sock");
    assert_line_contains(&output, "error=LaunchAgent status unavailable: HOME is required");
}

#[test]
fn healthy_report_has_no_warnings_or_errors() {
    let paths = paths();
    let obs = observations(&paths, Ok(config(true, true)), all_secrets());

    let report = check(&paths, &obs);
    let output = report.to_key_value();

    assert!(!report.has_errors());
    assert_eq!(report.overall_status(), OverallStatus::Good);
    assert_line(&output, "overall_status=ok");
    assert_line(&output, "github_status=ok");
    assert_line(&output, "slack_status=ok");
    assert_line(&output, "binary_path_match=true");
    assert!(!output.contains("warning="));
    assert!(!output.contains("error="));
}
