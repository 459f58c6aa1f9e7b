use signalpane::cli::{
    format_dt, format_launch_agent_status, format_log_tail, format_optional_text,
    format_secrets_check, format_source_line, format_status_header, Cli, CliError, Command,
    ConfigCommand, LaunchAgentCommand, SecretsCommand, SecretsSetCommand,
};
use signalpane::config::{SecretKey, Secrets};
use signalpane::launch_agent::{DaemonIpcStatus, LaunchAgentLogs, LaunchAgentStatus, LABEL};
use signalpane::model::SourceStatus;
use signalpane::time::UtcTime;

#[test]
fn parses_config_init_command() {
    let cli = Cli::try_parse_from(&["signalpane", "config", "init"]).expect("parse cli");

    match cli.command {
        Command::Config {
            command: ConfigCommand::Init,
        } => {}
        command => panic!("unexpected command: {command:?}"),
    }
}

#[test]
fn parses_config_list_command() {
    let cli = Cli::try_parse_from(&["signalpane", "config", "list"]).expect("parse cli");

    match cli.command {
        Command::Config {
            command: ConfigCommand::List,
        } => {}
        command => panic!("unexpected command: {command:?}"),
    }
}

#[test]
fn parses_secrets_path_command() {
    let cli = Cli::try_parse_from(&["signalpane", "secrets", "path"]).expect("parse cli");

    match cli.command {
        Command::Secrets {
            command: SecretsCommand::Path,
        } => {}
        command => panic!("unexpected command: {command:?}"),
    }
}

#[test]
fn parses_secrets_check_command() {
    let cli = Cli::try_parse_from(&["signalpane", "secrets", "check"]).expect("parse cli");

    match cli.command {
        Command::Secrets {
            command: SecretsCommand::Check,
        } => {}
        command => panic!("unexpected command: {command:?}"),
    }
}

#[test]
fn parses_secrets_set_github_token_command() {
    let cli = Cli::try_parse_from(&["signalpane", "secrets", "set", "github-token"])
        .expect("parse cli");

    match cli.command {
        Command::Secrets {
            command:
                SecretsCommand::SetSecret {
                    command: SecretsSetCommand::GithubToken,
                },
        } => {}
        command => panic!("unexpected command: {command:?}"),
    }
}

#[test]
fn formats_secrets_check_without_values() {
    let secrets = Secrets {
        github_token: Some("ghp_secret".to_string()),
        slack_user_token: None,
        slack_user_id: Some("U123".to_string()),
    };

    let output = format_secrets_check(&secrets);

    assert_eq!(
        output,
        "SIGNALPANE_GITHUB_TOKEN=present\nSIGNALPANE_SLACK_USER_TOKEN=missing\nSIGNALPANE_SLACK_USER_ID=present\n"
    );
    assert!(!output.contains("ghp_secret"));
    assert!(!output.contains("U123"));
}

#[test]
fn parses_launch_agent_restart_command() {
    let cli = Cli::try_parse_from(&["signalpane", "launch-agent", "restart"]).expect("parse cli");

    match cli.command {
        Command::LaunchAgent {
            command: LaunchAgentCommand::Restart,
        } => {}
        command => panic!("unexpected command: {command:?}"),
    }
}

#[test]
fn parses_launch_agent_start_command() {
    let cli = Cli::try_parse_from(&["signalpane", "launch-agent", "start"]).expect("parse cli");

    match cli.command {
        Command::LaunchAgent {
            command: LaunchAgentCommand::Start,
        } => {}
        command => panic!("unexpected command: {command:?}"),
    }
}

#[test]
fn parses_launch_agent_stop_command() {
    let cli = Cli::try_parse_from(&["signalpane", "launch-agent", "stop"]).expect("parse cli");

    match cli.command {
        Command::LaunchAgent {
            command: LaunchAgentCommand::Stop,
        } => {}
        command => panic!("unexpected command: {command:?}"),
    }
}

#[test]
fn parses_doctor_command() {
    let cli = Cli::try_parse_from(&["signalpane", "doctor"]).expect("parse cli");

    match cli.command {
        Command::Doctor => {}
        command => panic!("unexpected command: {command:?}"),
    }
}

#[test]
fn parses_launch_agent_logs_lines_command() {
    let cli = Cli::try_parse_from(&["signalpane", "launch-agent", "logs", "--lines", "42"])
        .expect("parse cli");

    match cli.command {
        Command::LaunchAgent {
            command: LaunchAgentCommand::Logs { lines },
        } => assert_eq!(lines, 42),
        command => panic!("unexpected command: {command:?}"),
    }
}

#[test]
fn parses_log_lines_command() {
    let cli = Cli::try_parse_from(&["signalpane", "log", "--lines", "42"]).expect("parse cli");

    match cli.command {
        Command::Log { lines } => assert_eq!(lines, 42),
        command => panic!("unexpected command: {command:?}"),
    }
}

#[test]
fn parses_log_default_lines_command() {
    let cli = Cli::try_parse_from(&["signalpane", "log"]).expect("parse cli");

    match cli.command {
        Command::Log { lines } => assert_eq!(lines, 100),
        command => panic!("unexpected command: {command:?}"),
    }
}

#[test]
fn formats_launch_agent_status_diagnostics() {
    let status = LaunchAgentStatus {
        label: LABEL.to_string(),
        loaded: true,
        daemon_ipc: DaemonIpcStatus::Responsive,
        socket_path: "/tmp/state/signalpane.sock".into(),
        log_path: "/tmp/state/logs/daemon.log".into(),
        plist_path: "/Users/alice/Library/LaunchAgents/com.faronan.signalpane.plist".into(),
        binary_path: "/Users/alice/.local/bin/signalpane".into(),
        warnings: vec!["binary path differs\nfrom current executable".to_string()],
    };

    assert_eq!(
        format_launch_agent_status(&status),
        "label=com.faronan.signalpane\nloaded=true\ndaemon_ipc=responsive\nsocket_path=/tmp/state/signalpane.sock\nlog_path=/tmp/state/logs/daemon.log\nplist_path=/Users/alice/Library/LaunchAgents/com.faronan.signalpane.plist\nbinary_path=/Users/alice/.local/bin/signalpane\nwarning=binary path differs from current executable\n"
    );
}

#[test]
fn formats_missing_launch_agent_log_without_error() {
    let logs = LaunchAgentLogs {
        log_path: "/tmp/state/logs/daemon.log".into(),
        exists: false,
        content: String::new(),
    };

    assert_eq!(
        format_log_tail(&logs),
        "log_path=/tmp/state/logs/daemon.log\nlog_exists=false\n"
    );
}

#[test]
fn cli_parses_every_subcommand_shape() {
    let cases: Vec<(Vec<&str>, Command)> = vec![
        (vec!["signalpane", "daemon", "--foreground"], Command::Daemon { foreground: true }),
        (vec!["signalpane", "daemon"], Command::Daemon { foreground: false }),
        (vec!["signalpane", "tui"], Command::Tui),
        (vec!["signalpane", "status"], Command::Status),
        (vec!["signalpane", "sources"], Command::Sources),
        (vec!["signalpane", "mark-read", "42"], Command::MarkRead { id: 42 }),
        (
            vec!["signalpane", "launch-agent", "install"],
            Command::LaunchAgent { command: LaunchAgentCommand::Install },
        ),
        (
            vec!["signalpane", "launch-agent", "uninstall"],
            Command::LaunchAgent { command: LaunchAgentCommand::Uninstall },
        ),
        (
            vec!["signalpane", "launch-agent", "status"],
            Command::LaunchAgent { command: LaunchAgentCommand::Status },
        ),
        (
            vec!["signalpane", "launch-agent", "logs"],
            Command::LaunchAgent { command: LaunchAgentCommand::Logs { lines: 100 } },
        ),
        (
            vec!["signalpane", "secrets", "set", "slack-user-token"],
            Command::Secrets {
                command: SecretsCommand::SetSecret { command: SecretsSetCommand::SlackUserToken },
            },
        ),
        (
            vec!["signalpane", "secrets", "set", "slack-user-id"],
            Command::Secrets {
                command: SecretsCommand::SetSecret { command: SecretsSetCommand::SlackUserId },
            },
        ),
    ];
    for (args, expected) in cases {
        let cli = Cli::try_parse_from(&args).expect("parse cli");
        assert_eq!(cli.command, expected, "args: {args:?}");
    }
}

#[test]
fn cli_reports_help_version_and_invalid_input() {
    assert_eq!(
        Cli::try_parse_from(&["signalpane", "--help"]),
        Err(CliError::HelpRequested)
    );
    assert_eq!(
        Cli::try_parse_from(&["signalpane", "--version"]),
        Err(CliError::VersionRequested)
    );
    assert!(matches!(
        Cli::try_parse_from(&["signalpane"]),
        Err(CliError::Invalid(_))
    ));
    assert!(matches!(
        Cli::try_parse_from(&["signalpane", "frobnicate"]),
        Err(CliError::Invalid(_))
    ));
    assert!(matches!(
        Cli::try_parse_from(&["signalpane", "log", "--lines", "many"]),
        Err(CliError::Invalid(_))
    ));
    assert!(matches!(
        Cli::try_parse_from(&["signalpane", "mark-read"]),
        Err(CliError::Invalid(_))
    ));
    assert_eq!(
        Cli::try_parse_from(&["signalpane", "mark-read", "-7"]),
        Err(CliError::Invalid("unexpected argument '-7' found".to_string()))
    );
}

#[test]
fn secrets_set_commands_name_their_keys() {
    assert_eq!(SecretsSetCommand::GithubToken.secret_key(), SecretKey::GithubToken);
    assert_eq!(SecretsSetCommand::SlackUserToken.secret_key(), SecretKey::SlackUserToken);
    assert_eq!(SecretsSetCommand::SlackUserId.secret_key(), SecretKey::SlackUserId);
}

#[test]
fn formats_present_log_tail_and_status_header() {
    let logs = LaunchAgentLogs {
        log_path: "/tmp/state/logs/daemon.log".into(),
        exists: true,
        content: "two\nthree\n".to_string(),
    };
    let text = format_log_tail(&logs);
    assert!(text.starts_with("log_path=/tmp/state/logs/daemon.log\nlog_exists=true\n"));
    assert!(text.ends_with("two\nthree\n"));
    assert_eq!(format_status_header(3, 10), "unread=3 total=10");
}

#[test]
fn optional_values_render_as_dash_when_missing() {
    assert_eq!(format_optional_text(None), "-");
    assert_eq!(format_optional_text(Some("a\tb\nc")), "a b c");
    assert_eq!(format_optional_text(Some("boom")), "boom");
    assert_eq!(format_dt(None), "-");
    let text = format_dt(Some(UtcTime { secs: 0, nanos: 0 }));
    assert_eq!(text, "1970-01-01T00:00:00+00:00");
}

#[test]
fn source_line_shows_cursor_health() {
    let status = SourceStatus {
        source: "github".to_string(),
        label: "GitHub".to_string(),
        enabled: true,
        unread_count: 2,
        cursor_key: Some("notifications".to_string()),
        last_cursor: Some("Tue, 26 May 2026 01:02:03 GMT".to_string()),
        poll_after: None,
        last_success_at: None,
        last_error_at: None,
        last_error: Some("request timed out".to_string()),
        consecutive_failures: 2,
    };
    let line = format_source_line(&status, true);
    assert!(line.contains("github"), "{line}");
    assert!(line.contains("notifications"), "{line}");
    assert!(line.contains("request timed out"), "{line}");
    assert!(line.contains("failures=2"), "{line}");
}
