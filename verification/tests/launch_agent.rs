use signalpane::config::AppPaths;
use signalpane::launch_agent::{
    build_status, ensure_bootout_success, ensure_no_foreground_socket_conflict, ensure_success,
    escape_plist_string, foreground_socket_conflict, gui_domain, is_service_not_found,
    launch_agent_path_from_env, launch_agent_path_from_home, launchctl_output_message, logs,
    print_output_loaded, registered_binary_path_from_plist, render_plist, service_target,
    unescape_plist_string, CommandOutput, DaemonIpcStatus, LABEL,
};

fn output(success: bool, code: Option<i32>, stdout: &str, stderr: &str) -> CommandOutput {
    CommandOutput {
        success,
        code,
        status_text: match code {
            Some(c) => format!("exit status: {c}"),
            None => "signal: 9".to_string(),
        },
        stdout: stdout.as_bytes().to_vec(),
        stderr: stderr.as_bytes().to_vec(),
    }
}

#[test]
fn resolves_only_the_user_launch_agent_path() {
    assert_eq!(
        launch_agent_path_from_home("/Users/alice"),
        "/Users/alice/Library/LaunchAgents/com.faronan.signalpane.plist"
    );
}

#[test]
fn launch_agent_path_needs_home() {
    assert_eq!(
        launch_agent_path_from_env(Some("/Users/bob".to_string())),
        Ok("/Users/bob/Library/LaunchAgents/com.faronan.signalpane.plist".to_string())
    );
    assert_eq!(
        launch_agent_path_from_env(None),
        Err("HOME is required to resolve the signalpane LaunchAgent path".to_string())
    );
}

#[test]
fn renders_daemon_foreground_plist_with_existing_log_path() {
    let paths = AppPaths::from_bases("/tmp/cfg".to_string(), "/tmp/state".to_string());
    let plist = render_plist("/Users/alice/.local/bin/signalpane", &paths);

    assert!(plist.contains("<key>Label</key>\n  <string>com.faronan.signalpane</string>"));
    assert!(plist.contains("<key>ProgramArguments</key>"));
    assert!(plist.contains("<string>/Users/alice/.local/bin/signalpane</string>"));
    assert!(plist.contains("<string>daemon</string>"));
    assert!(plist.contains("<string>--foreground</string>"));
    assert!(plist.contains("<key>RunAtLoad</key>\n  <true/>"));
    assert!(plist.contains("<key>KeepAlive</key>\n  <true/>"));
    assert!(plist.contains(
        "<key>StandardOutPath</key>\n  <string>/tmp/state/logs/daemon.log</string>"
    ));
    assert!(plist.contains(
        "<key>StandardErrorPath</key>\n  <string>/tmp/state/logs/daemon.log</string>"
    ));
}

#[test]
fn escapes_xml_values_in_plist_strings() {
    let paths = AppPaths::from_bases("/tmp/cfg".to_string(), "/tmp/state & <state>".to_string());
    let plist = render_plist("/tmp/signalpane & <bin> \"quoted\"", &paths);

    assert!(plist.contains("/tmp/signalpane &amp; &lt;bin&gt; &quot;quoted&quot;"));
    assert!(plist.contains("/tmp/state &amp; &lt;state&gt;/logs/daemon.log"));
}

#[test]
fn extracts_registered_binary_path_from_generated_plist() {
    let paths = AppPaths::from_bases("/tmp/cfg".to_string(), "/tmp/state & <state>".to_string());
    let plist = render_plist("/tmp/signalpane & <bin> \"quoted\"", &paths);

    assert_eq!(
        registered_binary_path_from_plist(&plist).as_deref(),
        Some("/tmp/signalpane & <bin> \"quoted\"")
    );
}

#[test]
fn plist_does_not_target_root_launchd_locations_or_store_secrets() {
    let paths = AppPaths::from_bases("/tmp/cfg".to_string(), "/tmp/state".to_string());
    let plist = render_plist("/Users/alice/.local/bin/signalpane", &paths);

    assert!(!plist.contains("/Library/LaunchDaemons"));
    assert!(!plist.contains("<key>UserName</key>"));
    assert!(!plist.contains("SIGNALPANE_GITHUB_TOKEN"));
    assert!(!plist.contains("SIGNALPANE_SLACK_USER_TOKEN"));
    assert!(!plist.contains("SIGNALPANE_SLACK_USER_ID"));
}

#[test]
fn status_warns_when_foreground_daemon_owns_socket_without_loaded_launch_agent() {
    let paths = AppPaths::from_bases("/tmp/cfg".to_string(), "/tmp/state".to_string());

    let status = build_status(
        &paths,
        "/Users/alice/Library/LaunchAgents/com.faronan.signalpane.plist".to_string(),
        None,
        false,
        "/Users/alice/.local/bin/signalpane".to_string(),
        DaemonIpcStatus::Responsive,
    );

    assert_eq!(status.daemon_ipc, DaemonIpcStatus::Responsive);
    assert_eq!(status.warnings.len(), 1);
    assert!(status.warnings[0].contains("foreground daemon appears"));
    assert!(ensure_no_foreground_socket_conflict(
        false,
        DaemonIpcStatus::Responsive,
        &paths.socket_file,
    )
    .is_err());
    assert!(ensure_no_foreground_socket_conflict(
        true,
        DaemonIpcStatus::Responsive,
        &paths.socket_file
    )
    .is_ok());
}

#[test]
fn status_warns_when_registered_binary_differs_from_current_binary() {
    let paths = AppPaths::from_bases("/tmp/x/cfg".to_string(), "/tmp/x/state".to_string());
    let plist = render_plist("/Users/alice/.local/bin/signalpane", &paths);

    let status = build_status(
        &paths,
        "/tmp/x/com.faronan.signalpane.plist".to_string(),
        Some(plist),
        true,
        "/tmp/debug/signalpane".to_string(),
        DaemonIpcStatus::Unreachable,
    );

    assert_eq!(status.binary_path, "/Users/alice/.local/bin/signalpane");
    assert_eq!(status.warnings.len(), 1);
    assert!(status.warnings[0].contains("registered binary differs"));
    assert_eq!(status.label, LABEL);
    assert!(status.loaded);
}

#[test]
fn status_without_plist_reports_the_current_binary() {
    let paths = AppPaths::from_bases("/tmp/cfg".to_string(), "/tmp/state".to_string());
    let status = build_status(
        &paths,
        "/nowhere/com.faronan.signalpane.plist".to_string(),
        None,
        true,
        "/usr/local/bin/signalpane".to_string(),
        DaemonIpcStatus::Responsive,
    );
    assert_eq!(status.binary_path, "/usr/local/bin/signalpane");
    assert!(status.warnings.is_empty());
    assert_eq!(status.socket_path, "/tmp/state/signalpane.sock");
    assert_eq!(status.log_path, "/tmp/state/logs/daemon.log");
}

#[test]
fn escape_and_unescape_round_trip() {
    let raw = "a&b<c>d\"e'f";
    let escaped = escape_plist_string(raw);
    assert_eq!(escaped, "a&amp;b&lt;c&gt;d&quot;e&apos;f");
    assert_eq!(unescape_plist_string(&escaped), raw);
    assert_eq!(unescape_plist_string("x &unknown; y & z"), "x &unknown; y & z");
}

#[test]
fn registered_binary_needs_program_arguments() {
    assert_eq!(registered_binary_path_from_plist("<plist></plist>"), None);
    assert_eq!(
        registered_binary_path_from_plist(
            "<key>ProgramArguments</key>\n<array>\n</array>\n<string>/x</string>\n"
        ),
        None
    );
    assert_eq!(
        registered_binary_path_from_plist(
            "<key>ProgramArguments</key>\r\n  <array>\r\n    <string>/bin/x</string>\r\n"
        ),
        Some("/bin/x".to_string())
    );
}

#[test]
fn reads_launch_agent_log_tail_from_text() {
    let paths = AppPaths::from_bases("/tmp/cfg".to_string(), "/tmp/state".to_string());
    let tail = logs(&paths, 2, Some("one\ntwo\nthree\n".to_string()));
    assert!(tail.exists);
    assert_eq!(tail.content, "two\nthree\n");
    assert_eq!(tail.log_path, "/tmp/state/logs/daemon.log");

    let missing = logs(&paths, 100, None);
    assert!(!missing.exists);
    assert!(missing.content.is_empty());
}

#[test]
fn launchctl_domains_and_targets() {
    assert_eq!(gui_domain("501"), "gui/501");
    assert_eq!(service_target("501"), "gui/501/com.faronan.signalpane");
}

#[test]
fn print_not_found_output_means_unloaded() {
    let not_found = output(false, Some(113), "", "Could not find service \"x\" in domain");
    assert!(is_service_not_found(&not_found));
    assert_eq!(print_output_loaded(not_found), Ok(false));
    assert_eq!(print_output_loaded(output(true, Some(0), "state = running", "")), Ok(true));
    assert_eq!(
        print_output_loaded(output(false, Some(5), "", "  Input/output error \n")),
        Err("launchctl print failed: Input/output error".to_string())
    );
}

#[test]
fn failed_commands_name_their_output_or_status() {
    assert_eq!(
        ensure_success(output(false, Some(3), "", ""), "launchctl bootstrap"),
        Err("launchctl bootstrap failed with status exit status: 3".to_string())
    );
    assert_eq!(
        launchctl_output_message(&output(false, Some(3), " out ", " err ")),
        "err out"
    );
    assert!(ensure_bootout_success(output(false, Some(113), "Could not find service", "")).is_ok());
    assert_eq!(
        ensure_bootout_success(output(false, Some(1), "", "denied")),
        Err("launchctl bootout failed: denied".to_string())
    );
    assert!(foreground_socket_conflict(false, DaemonIpcStatus::Responsive));
    assert!(!foreground_socket_conflict(false, DaemonIpcStatus::Unreachable));
    assert_eq!(DaemonIpcStatus::Responsive.as_str(), "responsive");
    assert_eq!(DaemonIpcStatus::Unreachable.as_str(), "unreachable");
}

#[test]
fn print_not_found_output_means_service_is_unloaded() {
    let output = output(
        false,
        Some(113),
        "",
        "Bad request.\nCould not find service \"com.faronan.signalpane\" in domain for user gui: 501\n",
    );

    assert!(!print_output_loaded(output).expect("classify output"));
}

#[test]
fn bootout_non_not_found_failure_returns_error() {
    let output = output(false, Some(5), "", "Input/output error\n");

    let err = ensure_bootout_success(output).expect_err("bootout should fail");

    assert!(err.contains("launchctl bootout failed"), "unexpected error: {err}");
}

#[test]
fn missing_log_returns_empty_non_error_result() {
    let paths = AppPaths::from_bases("/tmp/cfg".to_string(), "/tmp/state".to_string());

    let logs = logs(&paths, 100, None);

    assert!(!logs.exists);
    assert!(logs.content.is_empty());
}
