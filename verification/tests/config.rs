use signalpane::config::{
    default_poll_interval, join_path, AppPaths, Config, GithubConfig, SecretKey, Secrets,
    SlackConfig,
};

#[test]
fn resolves_xdg_style_paths() {
    let paths = AppPaths::from_bases("/tmp/cfg".to_string(), "/tmp/state".to_string());
    assert_eq!(paths.config_file, "/tmp/cfg/config.toml");
    assert_eq!(paths.db_file, "/tmp/state/signalpane.sqlite3");
    assert_eq!(paths.socket_file, "/tmp/state/signalpane.sock");
    assert_eq!(paths.daemon_log, "/tmp/state/logs/daemon.log");
}

#[test]
fn paths_from_env_prefer_xdg_bases_and_need_home() {
    let paths = AppPaths::from_env(Some("/Users/alice".to_string()), None, None)
        .expect("paths");
    assert_eq!(paths.config_file, "/Users/alice/.config/signalpane/config.toml");
    assert_eq!(
        paths.daemon_log,
        "/Users/alice/.local/state/signalpane/logs/daemon.log"
    );

    let paths = AppPaths::from_env(
        Some("/Users/alice".to_string()),
        Some("/xdg/config".to_string()),
        Some("/xdg/state".to_string()),
    )
    .expect("paths");
    assert_eq!(paths.config_dir, "/xdg/config/signalpane");
    assert_eq!(paths.socket_file, "/xdg/state/signalpane/signalpane.sock");

    assert_eq!(
        AppPaths::from_env(None, Some("/xdg/config".to_string()), None),
        Err("HOME is required to resolve signalpane paths".to_string())
    );
}

#[test]
fn joins_paths_like_path_join() {
    assert_eq!(join_path("/tmp/cfg", "config.toml"), "/tmp/cfg/config.toml");
    assert_eq!(join_path("/tmp/cfg/", "config.toml"), "/tmp/cfg/config.toml");
}

#[test]
fn config_defaults_enable_both_collectors_every_minute() {
    let config = Config::default();
    assert_eq!(config.github, GithubConfig::default());
    assert_eq!(config.slack, SlackConfig::default());
    assert!(config.github.enabled);
    assert_eq!(config.github.poll_interval_seconds, 60);
    assert!(config.slack.enabled);
    assert!(config.slack.channels.is_empty());
    assert_eq!(config.slack.poll_interval_seconds, default_poll_interval());
}

#[test]
fn blank_secret_variables_count_as_missing() {
    let secrets = Secrets::from_env(
        Some("ghp_token".to_string()),
        Some("   ".to_string()),
        None,
    );
    assert_eq!(secrets.github_token.as_deref(), Some("ghp_token"));
    assert_eq!(secrets.slack_user_token, None);
    assert_eq!(secrets.slack_user_id, None);
    assert_eq!(
        secrets.value_for(SecretKey::GithubToken).map(String::as_str),
        Some("ghp_token")
    );
    assert_eq!(secrets.value_for(SecretKey::SlackUserId), None);
}

#[test]
fn secret_keys_name_their_variables_in_order() {
    let names: Vec<&str> = SecretKey::all().into_iter().map(|k| k.env_name()).collect();
    assert_eq!(
        names,
        vec![
            "SIGNALPANE_GITHUB_TOKEN",
            "SIGNALPANE_SLACK_USER_TOKEN",
            "SIGNALPANE_SLACK_USER_ID"
        ]
    );
}
