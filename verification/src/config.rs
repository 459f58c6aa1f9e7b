//! Runtime locations, the collector configuration and the secrets that the
//! daemon reads from its environment.
use vstd::prelude::*;
use vstd::string::*;

use crate::text::{is_blank, owned, push_str, trim};

verus! {

/// Environment variable that holds the GitHub token.
pub const GITHUB_TOKEN_ENV: &'static str = "SIGNALPANE_GITHUB_TOKEN";

/// Environment variable that holds the Slack user token.
pub const SLACK_USER_TOKEN_ENV: &'static str = "SIGNALPANE_SLACK_USER_TOKEN";

/// Environment variable that holds the Slack user ID.
pub const SLACK_USER_ID_ENV: &'static str = "SIGNALPANE_SLACK_USER_ID";

/// `base` with the relative path `part` appended, as `Path::join` does on Unix:
/// a separator is inserted unless `base` is empty or already ends with one.
pub open spec fn join(base: Seq<char>, part: Seq<char>) -> Seq<char> {
    if base.len() == 0 {
        part
    } else if base.last() == '/' {
        base + part
    } else {
        base + seq!['/'] + part
    }
}

/// `Path::join` of a relative path onto `base`.
pub fn join_path(base: &str, part: &str) -> (r: String)
    ensures
        r@ == join(base@, part@),
{
    let mut r = owned(base);
    let n = base.unicode_len();
    if n > 0 && base.get_char(n - 1) != '/' {
        crate::text::push_char(&mut r, '/');
    }
    push_str(&mut r, part);
    r
}

/// Where signalpane keeps its files.
#[derive(Debug, Clone, PartialEq, Eq)]
pub struct AppPaths {
    pub config_dir: String,
    pub config_file: String,
    pub state_dir: String,
    pub db_file: String,
    pub socket_file: String,
    pub log_dir: String,
    pub daemon_log: String,
}

impl AppPaths {
    /// The file layout under `config_dir` and `state_dir` stated by `from_bases`.
    pub open spec fn laid_out(self, config_dir: Seq<char>, state_dir: Seq<char>) -> bool {
        &&& self.config_dir@ == config_dir
        &&& self.state_dir@ == state_dir
        &&& self.config_file@ == join(config_dir, "config.toml"@)
        &&& self.db_file@ == join(state_dir, "signalpane.sqlite3"@)
        &&& self.socket_file@ == join(state_dir, "signalpane.sock"@)
        &&& self.log_dir@ == join(state_dir, "logs"@)
        &&& self.daemon_log@ == join(join(state_dir, "logs"@), "daemon.log"@)
    }

    /// The paths under the given configuration and state directories.
    pub fn from_bases(config_dir: String, state_dir: String) -> (r: Self)
        ensures
            r.laid_out(config_dir@, state_dir@),
    {
        let log_dir = join_path(state_dir.as_str(), "logs");
        AppPaths {
            config_file: join_path(config_dir.as_str(), "config.toml"),
            db_file: join_path(state_dir.as_str(), "signalpane.sqlite3"),
            socket_file: join_path(state_dir.as_str(), "signalpane.sock"),
            daemon_log: join_path(log_dir.as_str(), "daemon.log"),
            config_dir,
            state_dir,
            log_dir,
        }
    }

    /// The paths that the environment selects: `XDG_CONFIG_HOME` and
    /// `XDG_STATE_HOME` where they are set, else `~/.config` and
    /// `~/.local/state`. `HOME` must be set in either case.
    pub fn from_env(
        home: Option<String>,
        xdg_config_home: Option<String>,
        xdg_state_home: Option<String>,
    ) -> (r: Result<Self, String>)
        ensures
            home is None <==> r is Err,
            r is Err ==> r->Err_0@ == "HOME is required to resolve signalpane paths"@,
            r is Ok ==> {
                let config_base = match xdg_config_home {
                    Some(c) => c@,
                    None => join(home->Some_0@, ".config"@),
                };
                let state_base = match xdg_state_home {
                    Some(s) => s@,
                    None => join(home->Some_0@, ".local/state"@),
                };
                r->Ok_0.laid_out(
                    join(config_base, "signalpane"@),
                    join(state_base, "signalpane"@),
                )
            },
    {
        let home = match home {
            Some(h) => h,
            None => {
                return Err(owned("HOME is required to resolve signalpane paths"));
            },
        };
        let config_base = match xdg_config_home {
            Some(c) => c,
            None => join_path(home.as_str(), ".config"),
        };
        let state_base = match xdg_state_home {
            Some(s) => s,
            None => join_path(home.as_str(), ".local/state"),
        };
        Ok(
            Self::from_bases(
                join_path(config_base.as_str(), "signalpane"),
                join_path(state_base.as_str(), "signalpane"),
            ),
        )
    }
}

/// Seconds between polls when the configuration names none.
pub fn default_poll_interval() -> (r: u64)
    ensures
        r == 60,
{
    60
}

/// A collector is enabled when the configuration does not say otherwise.
pub fn default_true() -> (r: bool)
    ensures
        r,
{
    true
}

/// The collector configuration of `config.toml`.
#[derive(Debug, Clone, PartialEq, Eq)]
pub struct Config {
    pub github: GithubConfig,
    pub slack: SlackConfig,
}

/// The `[github]` table.
#[derive(Debug, Clone, PartialEq, Eq)]
pub struct GithubConfig {
    pub enabled: bool,
    pub poll_interval_seconds: u64,
}

/// The `[slack]` table: the allowlisted conversation IDs among them.
#[derive(Debug, Clone, PartialEq, Eq)]
pub struct SlackConfig {
    pub enabled: bool,
    pub channels: Vec<String>,
    pub poll_interval_seconds: u64,
}

impl GithubConfig {
    /// The defaults: enabled, polling every 60 seconds.
    pub open spec fn is_default(self) -> bool {
        self.enabled && self.poll_interval_seconds == 60
    }
}

impl SlackConfig {
    /// The defaults: enabled, no channels, polling every 60 seconds.
    pub open spec fn is_default(self) -> bool {
        self.enabled && self.channels@.len() == 0 && self.poll_interval_seconds == 60
    }
}

impl Config {
    /// Both tables hold their defaults.
    pub open spec fn is_default(self) -> bool {
        self.github.is_default() && self.slack.is_default()
    }
}

impl Default for GithubConfig {
    fn default() -> (r: Self)
        ensures
            r.is_default(),
    {
        GithubConfig { enabled: default_true(), poll_interval_seconds: default_poll_interval() }
    }
}

impl Default for SlackConfig {
    fn default() -> (r: Self)
        ensures
            r.is_default(),
    {
        SlackConfig {
            enabled: default_true(),
            channels: Vec::new(),
            poll_interval_seconds: default_poll_interval(),
        }
    }
}

impl Default for Config {
    fn default() -> (r: Self)
        ensures
            r.is_default(),
    {
        Config { github: GithubConfig::default(), slack: SlackConfig::default() }
    }
}

/// The secrets, each present only when its variable holds more than whitespace.
#[derive(Debug, Clone, PartialEq, Eq)]
pub struct Secrets {
    pub github_token: Option<String>,
    pub slack_user_token: Option<String>,
    pub slack_user_id: Option<String>,
}

/// The value of an environment variable, kept only where it is not blank.
pub open spec fn non_empty(value: Option<String>) -> Option<Seq<char>> {
    match value {
        Some(v) => if trim(v@).len() > 0 {
            Some(v@)
        } else {
            None
        },
        None => None,
    }
}

/// The view of an optional string.
pub open spec fn opt_view(value: Option<String>) -> Option<Seq<char>> {
    match value {
        Some(v) => Some(v@),
        None => None,
    }
}

fn non_empty_env(value: Option<String>) -> (r: Option<String>)
    ensures
        opt_view(r) == non_empty(value),
{
    match value {
        Some(v) => if is_blank(v.as_str()) {
            None
        } else {
            Some(v)
        },
        None => None,
    }
}

impl Secrets {
    /// The secrets from the values of the three environment variables
    /// (`None` where a variable is unset); blank values count as missing.
    pub fn from_env(
        github_token: Option<String>,
        slack_user_token: Option<String>,
        slack_user_id: Option<String>,
    ) -> (r: Self)
        ensures
            opt_view(r.github_token) == non_empty(github_token),
            opt_view(r.slack_user_token) == non_empty(slack_user_token),
            opt_view(r.slack_user_id) == non_empty(slack_user_id),
    {
        Secrets {
            github_token: non_empty_env(github_token),
            slack_user_token: non_empty_env(slack_user_token),
            slack_user_id: non_empty_env(slack_user_id),
        }
    }

    /// The value held for `key`.
    pub open spec fn spec_value_for(self, key: SecretKey) -> Option<String> {
        match key {
            SecretKey::GithubToken => self.github_token,
            SecretKey::SlackUserToken => self.slack_user_token,
            SecretKey::SlackUserId => self.slack_user_id,
        }
    }

    /// The value held for `key`.
    pub fn value_for(&self, key: SecretKey) -> (r: Option<&String>)
        ensures
            match r {
                Some(v) => self.spec_value_for(key) == Some(*v),
                None => self.spec_value_for(key) is None,
            },
    {
        match key {
            SecretKey::GithubToken => self.github_token.as_ref(),
            SecretKey::SlackUserToken => self.slack_user_token.as_ref(),
            SecretKey::SlackUserId => self.slack_user_id.as_ref(),
        }
    }
}

/// One of the three secrets.
#[derive(Debug, Clone, Copy, PartialEq, Eq)]
pub enum SecretKey {
    GithubToken,
    SlackUserToken,
    SlackUserId,
}

/// The environment variable of each secret.
pub open spec fn env_name_spec(key: SecretKey) -> Seq<char> {
    match key {
        SecretKey::GithubToken => GITHUB_TOKEN_ENV@,
        SecretKey::SlackUserToken => SLACK_USER_TOKEN_ENV@,
        SecretKey::SlackUserId => SLACK_USER_ID_ENV@,
    }
}

/// The secrets in the order in which they are listed.
pub open spec fn all_keys_spec() -> Seq<SecretKey> {
    seq![SecretKey::GithubToken, SecretKey::SlackUserToken, SecretKey::SlackUserId]
}

impl SecretKey {
    /// All secrets, in the order in which they are listed.
    pub fn all() -> (r: Vec<SecretKey>)
        ensures
            r@ == all_keys_spec(),
    {
        let mut v = Vec::new();
        v.push(SecretKey::GithubToken);
        v.push(SecretKey::SlackUserToken);
        v.push(SecretKey::SlackUserId);
        assert(v@ =~= all_keys_spec());
        v
    }

    /// The environment variable that holds this secret.
    pub fn env_name(self) -> (r: &'static str)
        ensures
            r@ == env_name_spec(self),
    {
        match self {
            SecretKey::GithubToken => GITHUB_TOKEN_ENV,
            SecretKey::SlackUserToken => SLACK_USER_TOKEN_ENV,
            SecretKey::SlackUserId => SLACK_USER_ID_ENV,
        }
    }
}

} // verus!
