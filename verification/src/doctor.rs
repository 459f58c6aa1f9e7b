//! `signalpane doctor`: what the configuration, the secrets, the LaunchAgent
//! and the daemon socket look like, judged and rendered as `key=value` lines.
use vstd::prelude::*;
use vstd::string::*;

use crate::config::{
    AppPaths, Config, Secrets, GITHUB_TOKEN_ENV, SLACK_USER_ID_ENV, SLACK_USER_TOKEN_ENV,
};
use crate::launch_agent::{ipc_status_text, DaemonIpcStatus, LaunchAgentStatus, LABEL};
use crate::text::{
    lemma_lines_concat, lemma_lines_single, lemma_sanitize_has_no_control, lines, owned, push_char,
    push_str, sanitize, sanitize_cli_value, starts_with, strip_cr,
};

verus! {

/// What `doctor` found out by looking at the machine.
#[derive(Debug)]
pub struct DoctorObservations {
    /// The configuration file exists.
    pub config_exists: bool,
    /// The configuration in effect (the defaults when the file is missing),
    /// or why it could not be read or parsed.
    pub config: Result<Config, String>,
    /// The secrets, or why they could not be loaded.
    pub secrets: Result<Secrets, String>,
    /// The running executable, or why it is unknown.
    pub current_binary_path: Result<String, String>,
    /// What `launch-agent status` reports, or why it failed.
    pub launch_agent_status: Result<LaunchAgentStatus, String>,
    /// The plist that the status names exists.
    pub status_plist_exists: bool,
    /// The plist location derived from `HOME`, where `HOME` is set.
    pub fallback_plist_path: Option<String>,
    /// That location holds a file.
    pub fallback_plist_exists: bool,
    /// Whether the daemon answered on its socket.
    pub daemon_ipc: DaemonIpcStatus,
    pub socket_exists: bool,
    pub log_exists: bool,
    pub db_exists: bool,
}

/// The verdict on the whole report.
#[derive(Debug, Clone, Copy, PartialEq, Eq, Structural)]
pub enum OverallStatus {
    Good,
    Warning,
    Error,
}

/// Whether the configuration parsed.
#[derive(Debug, Clone, Copy, PartialEq, Eq, Structural)]
pub enum ParseStatus {
    Good,
    Error,
}

/// Whether a collector can run.
#[derive(Debug, Clone, Copy, PartialEq, Eq, Structural)]
pub enum SourceReadiness {
    Good,
    Warning,
    Error,
    Disabled,
    Unknown,
}

/// Whether a check could be made.
#[derive(Debug, Clone, Copy, PartialEq, Eq, Structural)]
pub enum CheckStatus {
    Good,
    Error,
}

pub open spec fn overall_text(s: OverallStatus) -> Seq<char> {
    match s {
        OverallStatus::Good => "ok"@,
        OverallStatus::Warning => "warning"@,
        OverallStatus::Error => "error"@,
    }
}

pub open spec fn parse_text(s: ParseStatus) -> Seq<char> {
    match s {
        ParseStatus::Good => "ok"@,
        ParseStatus::Error => "error"@,
    }
}

pub open spec fn readiness_text(s: SourceReadiness) -> Seq<char> {
    match s {
        SourceReadiness::Good => "ok"@,
        SourceReadiness::Warning => "warning"@,
        SourceReadiness::Error => "error"@,
        SourceReadiness::Disabled => "disabled"@,
        SourceReadiness::Unknown => "unknown"@,
    }
}

pub open spec fn check_text(s: CheckStatus) -> Seq<char> {
    match s {
        CheckStatus::Good => "ok"@,
        CheckStatus::Error => "error"@,
    }
}

impl OverallStatus {
    pub fn as_str(self) -> (r: &'static str)
        ensures
            r@ == overall_text(self),
    {
        match self {
            OverallStatus::Good => "ok",
            OverallStatus::Warning => "warning",
            OverallStatus::Error => "error",
        }
    }
}

impl ParseStatus {
    pub fn as_str(self) -> (r: &'static str)
        ensures
            r@ == parse_text(self),
    {
        match self {
            ParseStatus::Good => "ok",
            ParseStatus::Error => "error",
        }
    }
}

impl SourceReadiness {
    pub fn as_str(self) -> (r: &'static str)
        ensures
            r@ == readiness_text(self),
    {
        match self {
            SourceReadiness::Good => "ok",
            SourceReadiness::Warning => "warning",
            SourceReadiness::Error => "error",
            SourceReadiness::Disabled => "disabled",
            SourceReadiness::Unknown => "unknown",
        }
    }
}

impl CheckStatus {
    pub fn as_str(self) -> (r: &'static str)
        ensures
            r@ == check_text(self),
    {
        match self {
            CheckStatus::Good => "ok",
            CheckStatus::Error => "error",
        }
    }
}

/// The doctor's findings.
#[derive(Debug, Clone)]
pub struct DoctorReport {
    pub config_path: String,
    pub config_exists: bool,
    pub config_parse: ParseStatus,
    pub github_enabled: Option<bool>,
    pub github_token_present: bool,
    pub github_status: SourceReadiness,
    pub slack_enabled: Option<bool>,
    pub slack_user_token_present: bool,
    pub slack_user_id_present: bool,
    pub slack_status: SourceReadiness,
    pub launch_agent_status: CheckStatus,
    pub launch_agent_loaded: Option<bool>,
    pub daemon_ipc: DaemonIpcStatus,
    pub socket_path: String,
    pub socket_exists: bool,
    pub log_path: String,
    pub log_exists: bool,
    pub db_path: String,
    pub db_exists: bool,
    pub plist_path: Option<String>,
    pub plist_exists: Option<bool>,
    pub registered_binary_path: Option<String>,
    pub current_binary_path: Option<String>,
    pub binary_path_match: Option<bool>,
    pub warnings: Vec<String>,
    pub errors: Vec<String>,
}

// ---------------------------------------------------------------------------
// What the checks conclude
// ---------------------------------------------------------------------------

/// `values` with `v` added at the end unless it is already there.
pub open spec fn push_unique_spec(values: Seq<Seq<char>>, v: Seq<char>) -> Seq<Seq<char>> {
    if values.contains(v) {
        values
    } else {
        values.push(v)
    }
}

/// `values` with each of `items` added in turn unless already there.
pub open spec fn push_all_unique(values: Seq<Seq<char>>, items: Seq<Seq<char>>) -> Seq<Seq<char>>
    decreases items.len(),
{
    if items.len() == 0 {
        values
    } else {
        push_all_unique(push_unique_spec(values, items[0]), items.drop_first())
    }
}

/// A one-element list when `b` holds, else an empty one.
pub open spec fn when(b: bool, v: Seq<char>) -> Seq<Seq<char>> {
    if b {
        seq![v]
    } else {
        seq![]
    }
}

pub open spec fn github_token_present(o: DoctorObservations) -> bool {
    o.secrets is Ok && o.secrets->Ok_0.github_token is Some
}

pub open spec fn slack_user_token_present(o: DoctorObservations) -> bool {
    o.secrets is Ok && o.secrets->Ok_0.slack_user_token is Some
}

pub open spec fn slack_user_id_present(o: DoctorObservations) -> bool {
    o.secrets is Ok && o.secrets->Ok_0.slack_user_id is Some
}

/// Whether GitHub is enabled and ready.
pub open spec fn github_readiness(o: DoctorObservations) -> (Option<bool>, SourceReadiness) {
    match o.config {
        Err(_) => (None, SourceReadiness::Unknown),
        Ok(c) => if !c.github.enabled {
            (Some(false), SourceReadiness::Disabled)
        } else if !github_token_present(o) {
            (Some(true), SourceReadiness::Error)
        } else {
            (Some(true), SourceReadiness::Good)
        },
    }
}

/// Whether Slack is enabled and ready.
pub open spec fn slack_readiness(o: DoctorObservations) -> (Option<bool>, SourceReadiness) {
    match o.config {
        Err(_) => (None, SourceReadiness::Unknown),
        Ok(c) => if !c.slack.enabled {
            (Some(false), SourceReadiness::Disabled)
        } else if !slack_user_token_present(o) {
            (Some(true), SourceReadiness::Error)
        } else if !slack_user_id_present(o) {
            (Some(true), SourceReadiness::Warning)
        } else {
            (Some(true), SourceReadiness::Good)
        },
    }
}

pub open spec fn config_missing_message(path: Seq<char>) -> Seq<char> {
    "config file does not exist at "@ + path + "; using defaults"@
}

pub open spec fn github_token_missing_message() -> Seq<char> {
    "github is enabled but "@ + GITHUB_TOKEN_ENV@ + " is not present"@
}

pub open spec fn slack_token_missing_message() -> Seq<char> {
    "slack is enabled but "@ + SLACK_USER_TOKEN_ENV@ + " is not present"@
}

pub open spec fn slack_id_missing_message() -> Seq<char> {
    "slack is enabled but "@ + SLACK_USER_ID_ENV@
        + " is not present; runtime will resolve it with auth.test"@
}

pub open spec fn not_loaded_message() -> Seq<char> {
    "LaunchAgent "@ + LABEL@ + " is not loaded"@
}

pub open spec fn ipc_unreachable_message(socket: Seq<char>) -> Seq<char> {
    "daemon IPC is unreachable at "@ + socket
}

pub open spec fn binary_mismatch_message() -> Seq<char> {
    "registered binary differs from current executable"@
}

/// The registered binary: the status's binary path where the status is known
/// and its plist exists.
pub open spec fn registered_binary(o: DoctorObservations) -> Option<Seq<char>> {
    match o.launch_agent_status {
        Ok(s) => if o.status_plist_exists {
            Some(s.binary_path@)
        } else {
            None
        },
        Err(_) => None,
    }
}

/// Whether the registered and the current binary are the same, where both are known.
pub open spec fn binary_match(o: DoctorObservations) -> Option<bool> {
    match (registered_binary(o), o.current_binary_path) {
        (Some(reg), Ok(cur)) => Some(reg == cur@),
        _ => None,
    }
}

/// The daemon's IPC state as reported: the LaunchAgent status's own probe when
/// the status is known, else the direct probe.
pub open spec fn reported_ipc(o: DoctorObservations) -> DaemonIpcStatus {
    match o.launch_agent_status {
        Ok(s) => s.daemon_ipc,
        Err(_) => o.daemon_ipc,
    }
}

/// The errors, in the order in which the checks run.
pub open spec fn expected_errors(paths: AppPaths, o: DoctorObservations) -> Seq<Seq<char>> {
    (match o.config {
        Err(e) => seq!["config parse failed: "@ + e@],
        Ok(_) => seq![],
    }) + (match o.secrets {
        Err(e) => seq!["secrets load failed: "@ + e@],
        Ok(_) => seq![],
    }) + when(github_readiness(o).1 == SourceReadiness::Error, github_token_missing_message())
        + when(slack_readiness(o).1 == SourceReadiness::Error, slack_token_missing_message()) + (
    match o.current_binary_path {
        Err(e) => seq!["current binary path unavailable: "@ + e@],
        Ok(_) => seq![],
    }) + (match o.launch_agent_status {
        Err(e) => seq!["LaunchAgent status unavailable: "@ + e@],
        Ok(_) => seq![],
    }) + when(
        reported_ipc(o) == DaemonIpcStatus::Unreachable,
        ipc_unreachable_message(paths.socket_file@),
    )
}

/// The warnings, in the order in which the checks run; the LaunchAgent's own
/// warnings and the binary mismatch are each added once.
pub open spec fn expected_warnings(paths: AppPaths, o: DoctorObservations) -> Seq<Seq<char>> {
    let first = when(
        o.config is Ok && !o.config_exists,
        config_missing_message(paths.config_file@),
    ) + when(slack_readiness(o).1 == SourceReadiness::Warning, slack_id_missing_message());
    let with_status = match o.launch_agent_status {
        Ok(s) => push_all_unique(first + when(!s.loaded, not_loaded_message()), s.warnings.deep_view()),
        Err(_) => first,
    };
    if binary_match(o) == Some(false) {
        push_unique_spec(with_status, binary_mismatch_message())
    } else {
        with_status
    }
}

impl DoctorReport {
    /// The report is what `check` concludes from the observations.
    pub open spec fn concluded(self, paths: AppPaths, o: DoctorObservations) -> bool {
        &&& self.config_path@ == paths.config_file@
        &&& self.config_exists == o.config_exists
        &&& self.config_parse == (if o.config is Ok {
            ParseStatus::Good
        } else {
            ParseStatus::Error
        })
        &&& (self.github_enabled, self.github_status) == github_readiness(o)
        &&& self.github_token_present == github_token_present(o)
        &&& (self.slack_enabled, self.slack_status) == slack_readiness(o)
        &&& self.slack_user_token_present == slack_user_token_present(o)
        &&& self.slack_user_id_present == slack_user_id_present(o)
        &&& self.launch_agent_status == (if o.launch_agent_status is Ok {
            CheckStatus::Good
        } else {
            CheckStatus::Error
        })
        &&& self.launch_agent_loaded == (match o.launch_agent_status {
            Ok(s) => Some(s.loaded),
            Err(_) => None,
        })
        &&& self.daemon_ipc == reported_ipc(o)
        &&& self.socket_path@ == paths.socket_file@
        &&& self.socket_exists == o.socket_exists
        &&& self.log_path@ == paths.daemon_log@
        &&& self.log_exists == o.log_exists
        &&& self.db_path@ == paths.db_file@
        &&& self.db_exists == o.db_exists
        &&& crate::config::opt_view(self.plist_path) == (match o.launch_agent_status {
            Ok(s) => Some(s.plist_path@),
            Err(_) => crate::config::opt_view(o.fallback_plist_path),
        })
        &&& self.plist_exists == (match o.launch_agent_status {
            Ok(_) => Some(o.status_plist_exists),
            Err(_) => if o.fallback_plist_path is Some {
                Some(o.fallback_plist_exists)
            } else {
                None
            },
        })
        &&& crate::config::opt_view(self.registered_binary_path) == registered_binary(o)
        &&& crate::config::opt_view(self.current_binary_path) == (match o.current_binary_path {
            Ok(p) => Some(p@),
            Err(_) => None,
        })
        &&& self.binary_path_match == binary_match(o)
        &&& self.warnings.deep_view() == expected_warnings(paths, o)
        &&& self.errors.deep_view() == expected_errors(paths, o)
    }

    /// Errors were found.
    pub fn has_errors(&self) -> (r: bool)
        ensures
            r == (self.errors.deep_view().len() > 0),
    {
        self.errors.len() > 0
    }

    /// Overall status: `Error` if any errors were found, otherwise `Warning`
    /// if any warnings were found, otherwise `Good`.
    pub open spec fn overall_spec(self) -> OverallStatus {
        if self.errors.deep_view().len() > 0 {
            OverallStatus::Error
        } else if self.warnings.deep_view().len() > 0 {
            OverallStatus::Warning
        } else {
            OverallStatus::Good
        }
    }

    pub fn overall_status(&self) -> (r: OverallStatus)
        ensures
            r == self.overall_spec(),
    {
        if self.errors.len() > 0 {
            OverallStatus::Error
        } else if self.warnings.len() > 0 {
            OverallStatus::Warning
        } else {
            OverallStatus::Good
        }
    }

    /// The lines about configuration and GitHub.
    pub open spec fn config_text(self) -> Seq<char> {
        kv("overall_status"@, overall_text(self.overall_spec())) + kv(
            "config_path"@,
            self.config_path@,
        ) + kv("config_exists"@, bool_text(self.config_exists)) + kv(
            "config_parse"@,
            parse_text(self.config_parse),
        ) + kv("github_enabled"@, opt_bool_text(self.github_enabled)) + kv(
            "github_token_present"@,
            bool_text(self.github_token_present),
        ) + kv("github_status"@, readiness_text(self.github_status))
    }

    /// The lines about Slack and launchd.
    pub open spec fn slack_text(self) -> Seq<char> {
        kv("slack_enabled"@, opt_bool_text(self.slack_enabled)) + kv(
            "slack_user_token_present"@,
            bool_text(self.slack_user_token_present),
        ) + kv("slack_user_id_present"@, bool_text(self.slack_user_id_present)) + kv(
            "slack_status"@,
            readiness_text(self.slack_status),
        ) + kv("launch_agent_status"@, check_text(self.launch_agent_status)) + kv(
            "launch_agent_loaded"@,
            opt_bool_text(self.launch_agent_loaded),
        ) + kv("daemon_ipc"@, ipc_status_text(self.daemon_ipc))
    }

    /// The lines about configuration, secrets and launchd.
    pub open spec fn head_text(self) -> Seq<char> {
        self.config_text() + self.slack_text()
    }

    /// The lines about files and binaries.
    pub open spec fn paths_text(self) -> Seq<char> {
        kv("socket_path"@, self.socket_path@) + kv("socket_exists"@, bool_text(self.socket_exists))
            + kv("log_path"@, self.log_path@) + kv("log_exists"@, bool_text(self.log_exists)) + kv(
            "db_path"@,
            self.db_path@,
        ) + kv("db_exists"@, bool_text(self.db_exists)) + kv(
            "plist_path"@,
            opt_path_text(self.plist_path),
        ) + kv("plist_exists"@, opt_bool_text(self.plist_exists)) + kv(
            "registered_binary_path"@,
            opt_path_text(self.registered_binary_path),
        ) + kv("current_binary_path"@, opt_path_text(self.current_binary_path)) + kv(
            "binary_path_match"@,
            opt_bool_text(self.binary_path_match),
        )
    }

    /// The report as `key=value` lines: the fixed keys in order, then one
    /// `warning=` line per warning and one `error=` line per error.
    pub open spec fn text(self) -> Seq<char> {
        self.head_text() + self.paths_text() + kv_all("warning"@, self.warnings.deep_view())
            + kv_all("error"@, self.errors.deep_view())
    }

    /// Renders the report as `key=value` lines; values are sanitized so that
    /// each stays on its line.
    pub fn to_key_value(&self) -> (r: String)
        ensures
            r@ == self.text(),
    {
        let mut output = String::new();
        self.push_head(&mut output);
        self.push_paths(&mut output);
        push_kv_all(&mut output, "warning", &self.warnings);
        push_kv_all(&mut output, "error", &self.errors);
        output
    }

    fn push_head(&self, output: &mut String)
        ensures
            final(output)@ == old(output)@ + self.head_text(),
    {
        self.push_config(output);
        self.push_slack(output);
    }

    fn push_config(&self, output: &mut String)
        ensures
            final(output)@ == old(output)@ + self.config_text(),
    {
        push_kv(output, "overall_status", self.overall_status().as_str());
        push_kv(output, "config_path", self.config_path.as_str());
        push_kv(output, "config_exists", format_bool(self.config_exists));
        push_kv(output, "config_parse", self.config_parse.as_str());
        push_kv(output, "github_enabled", format_optional_bool(self.github_enabled));
        push_kv(output, "github_token_present", format_bool(self.github_token_present));
        push_kv(output, "github_status", self.github_status.as_str());
    }

    fn push_slack(&self, output: &mut String)
        ensures
            final(output)@ == old(output)@ + self.slack_text(),
    {
        push_kv(output, "slack_enabled", format_optional_bool(self.slack_enabled));
        push_kv(output, "slack_user_token_present", format_bool(self.slack_user_token_present));
        push_kv(output, "slack_user_id_present", format_bool(self.slack_user_id_present));
        push_kv(output, "slack_status", self.slack_status.as_str());
        push_kv(output, "launch_agent_status", self.launch_agent_status.as_str());
        push_kv(output, "launch_agent_loaded", format_optional_bool(self.launch_agent_loaded));
        push_kv(output, "daemon_ipc", self.daemon_ipc.as_str());
    }

    #[verifier::rlimit(40)]
    fn push_paths(&self, output: &mut String)
        ensures
            final(output)@ == old(output)@ + self.paths_text(),
    {
        push_kv(output, "socket_path", self.socket_path.as_str());
        push_kv(output, "socket_exists", format_bool(self.socket_exists));
        push_kv(output, "log_path", self.log_path.as_str());
        push_kv(output, "log_exists", format_bool(self.log_exists));
        push_kv(output, "db_path", self.db_path.as_str());
        push_kv(output, "db_exists", format_bool(self.db_exists));
        let plist = format_optional_path(&self.plist_path);
        push_kv(output, "plist_path", plist.as_str());
        push_kv(output, "plist_exists", format_optional_bool(self.plist_exists));
        let registered = format_optional_path(&self.registered_binary_path);
        push_kv(output, "registered_binary_path", registered.as_str());
        let current = format_optional_path(&self.current_binary_path);
        push_kv(output, "current_binary_path", current.as_str());
        push_kv(output, "binary_path_match", format_optional_bool(self.binary_path_match));
    }
}

// ---------------------------------------------------------------------------
// key=value rendering
// ---------------------------------------------------------------------------

/// One `key=value` line, the value sanitized.
pub open spec fn kv(key: Seq<char>, value: Seq<char>) -> Seq<char> {
    key + seq!['='] + sanitize(value) + seq!['\n']
}

/// One `key=value` line for each value.
pub open spec fn kv_all(key: Seq<char>, values: Seq<Seq<char>>) -> Seq<char>
    decreases values.len(),
{
    if values.len() == 0 {
        seq![]
    } else {
        kv_all(key, values.drop_last()) + kv(key, values.last())
    }
}

pub open spec fn bool_text(b: bool) -> Seq<char> {
    if b {
        "true"@
    } else {
        "false"@
    }
}

pub open spec fn opt_bool_text(b: Option<bool>) -> Seq<char> {
    match b {
        Some(true) => "true"@,
        Some(false) => "false"@,
        None => "unknown"@,
    }
}

pub open spec fn opt_path_text(p: Option<String>) -> Seq<char> {
    match p {
        Some(p) => p@,
        None => "-"@,
    }
}

fn push_kv(output: &mut String, key: &str, value: &str)
    ensures
        final(output)@ == old(output)@ + kv(key@, value@),
{
    push_str(output, key);
    push_char(output, '=');
    let v = sanitize_cli_value(value);
    push_str(output, v.as_str());
    push_char(output, '\n');
}

fn push_kv_all(output: &mut String, key: &str, values: &Vec<String>)
    ensures
        final(output)@ == old(output)@ + kv_all(key@, values.deep_view()),
{
    let mut i: usize = 0;
    while i < values.len()
        invariant
            i <= values.len(),
            output@ == old(output)@ + kv_all(key@, values.deep_view().take(i as int)),
        decreases values.len() - i,
    {
        assert(values.deep_view().take(i + 1).drop_last() =~= values.deep_view().take(i as int));
        push_kv(output, key, values[i].as_str());
        i += 1;
    }
    assert(values.deep_view().take(values.len() as int) =~= values.deep_view());
}

pub fn format_bool(value: bool) -> (r: &'static str)
    ensures
        r@ == bool_text(value),
{
    if value {
        "true"
    } else {
        "false"
    }
}

pub fn format_optional_bool(value: Option<bool>) -> (r: &'static str)
    ensures
        r@ == opt_bool_text(value),
{
    match value {
        Some(true) => "true",
        Some(false) => "false",
        None => "unknown",
    }
}

pub fn format_optional_path(value: &Option<String>) -> (r: String)
    ensures
        r@ == opt_path_text(*value),
{
    match value {
        Some(p) => p.clone(),
        None => owned("-"),
    }
}

/// Adds `value` unless an equal value is already there.
pub fn push_unique(values: &mut Vec<String>, value: String)
    ensures
        final(values).deep_view() == push_unique_spec(old(values).deep_view(), value@),
{
    let mut i: usize = 0;
    while i < values.len()
        invariant
            i <= values.len(),
            forall|j: int| 0 <= j < i ==> values.deep_view()[j] != value@,
        decreases values.len() - i,
    {
        if values[i] == value {
            assert(values.deep_view()[i as int] == value@);
            assert(values.deep_view().contains(value@));
            return;
        }
        i += 1;
    }
    assert(!values.deep_view().contains(value@));
    let ghost before = values.deep_view();
    let ghost vv = value@;
    values.push(value);
    assert(values.deep_view() =~= before.push(vv));
}

fn push_all_unique_exec(values: &mut Vec<String>, items: &Vec<String>)
    ensures
        final(values).deep_view() == push_all_unique(old(values).deep_view(), items.deep_view()),
{
    let mut i: usize = 0;
    assert(items.deep_view().skip(0) =~= items.deep_view());
    while i < items.len()
        invariant
            i <= items.len(),
            push_all_unique(old(values).deep_view(), items.deep_view()) == push_all_unique(
                values.deep_view(),
                items.deep_view().skip(i as int),
            ),
        decreases items.len() - i,
    {
        let ghost rest = items.deep_view().skip(i as int);
        assert(rest[0] == items[i as int]@);
        assert(rest.drop_first() =~= items.deep_view().skip(i + 1));
        push_unique(values, items[i].clone());
        i += 1;
    }
}

fn message(prefix: &str, detail: &str) -> (r: String)
    ensures
        r@ == prefix@ + detail@,
{
    let mut r = owned(prefix);
    push_str(&mut r, detail);
    r
}

// ---------------------------------------------------------------------------
// The check
// ---------------------------------------------------------------------------

fn secrets_present(o: &DoctorObservations) -> (r: (bool, bool, bool))
    ensures
        r == (github_token_present(*o), slack_user_token_present(*o), slack_user_id_present(*o)),
{
    match &o.secrets {
        Ok(s) => (s.github_token.is_some(), s.slack_user_token.is_some(), s.slack_user_id.is_some()),
        Err(_) => (false, false, false),
    }
}

fn github_readiness_exec(o: &DoctorObservations) -> (r: (Option<bool>, SourceReadiness))
    ensures
        r == github_readiness(*o),
{
    let (token, _, _) = secrets_present(o);
    match &o.config {
        Ok(c) => if !c.github.enabled {
            (Some(false), SourceReadiness::Disabled)
        } else if !token {
            (Some(true), SourceReadiness::Error)
        } else {
            (Some(true), SourceReadiness::Good)
        },
        Err(_) => (None, SourceReadiness::Unknown),
    }
}

fn slack_readiness_exec(o: &DoctorObservations) -> (r: (Option<bool>, SourceReadiness))
    ensures
        r == slack_readiness(*o),
{
    let (_, token, id) = secrets_present(o);
    match &o.config {
        Ok(c) => if !c.slack.enabled {
            (Some(false), SourceReadiness::Disabled)
        } else if !token {
            (Some(true), SourceReadiness::Error)
        } else if !id {
            (Some(true), SourceReadiness::Warning)
        } else {
            (Some(true), SourceReadiness::Good)
        },
        Err(_) => (None, SourceReadiness::Unknown),
    }
}

fn reported_ipc_exec(o: &DoctorObservations) -> (r: DaemonIpcStatus)
    ensures
        r == reported_ipc(*o),
{
    match &o.launch_agent_status {
        Ok(s) => s.daemon_ipc,
        Err(_) => o.daemon_ipc,
    }
}

fn registered_binary_exec(o: &DoctorObservations) -> (r: Option<String>)
    ensures
        crate::config::opt_view(r) == registered_binary(*o),
{
    match &o.launch_agent_status {
        Ok(s) => if o.status_plist_exists {
            Some(s.binary_path.clone())
        } else {
            None
        },
        Err(_) => None,
    }
}

fn binary_match_exec(o: &DoctorObservations) -> (r: Option<bool>)
    ensures
        r == binary_match(*o),
{
    let registered = registered_binary_exec(o);
    match (&registered, &o.current_binary_path) {
        (Some(reg), Ok(cur)) => Some(*reg == *cur),
        _ => None,
    }
}

/// The errors that the checks find, in order.
fn collect_errors(paths: &AppPaths, o: &DoctorObservations) -> (r: Vec<String>)
    ensures
        r.deep_view() == expected_errors(*paths, *o),
{
    let mut errors: Vec<String> = Vec::new();
    if let Err(e) = &o.config {
        errors.push(message("config parse failed: ", e.as_str()));
    }
    if let Err(e) = &o.secrets {
        errors.push(message("secrets load failed: ", e.as_str()));
    }
    let ghost a = errors.deep_view();
    let (_, gs) = github_readiness_exec(o);
    if gs == SourceReadiness::Error {
        let mut m = owned("github is enabled but ");
        push_str(&mut m, GITHUB_TOKEN_ENV);
        push_str(&mut m, " is not present");
        errors.push(m);
    }
    let (_, ss) = slack_readiness_exec(o);
    if ss == SourceReadiness::Error {
        let mut m = owned("slack is enabled but ");
        push_str(&mut m, SLACK_USER_TOKEN_ENV);
        push_str(&mut m, " is not present");
        errors.push(m);
    }
    let ghost b = errors.deep_view();
    if let Err(e) = &o.current_binary_path {
        errors.push(message("current binary path unavailable: ", e.as_str()));
    }
    if let Err(e) = &o.launch_agent_status {
        errors.push(message("LaunchAgent status unavailable: ", e.as_str()));
    }
    let ghost c = errors.deep_view();
    if reported_ipc_exec(o) == DaemonIpcStatus::Unreachable {
        errors.push(message("daemon IPC is unreachable at ", paths.socket_file.as_str()));
    }
    assert(errors.deep_view() =~= expected_errors(*paths, *o));
    errors
}

/// The warnings that the checks find, in order.
fn collect_warnings(paths: &AppPaths, o: &DoctorObservations) -> (r: Vec<String>)
    ensures
        r.deep_view() == expected_warnings(*paths, *o),
{
    let mut warnings: Vec<String> = Vec::new();
    if o.config.is_ok() && !o.config_exists {
        let mut w = owned("config file does not exist at ");
        push_str(&mut w, paths.config_file.as_str());
        push_str(&mut w, "; using defaults");
        warnings.push(w);
    }
    let (_, ss) = slack_readiness_exec(o);
    if ss == SourceReadiness::Warning {
        let mut m = owned("slack is enabled but ");
        push_str(&mut m, SLACK_USER_ID_ENV);
        push_str(&mut m, " is not present; runtime will resolve it with auth.test");
        warnings.push(m);
    }
    let ghost first = when(
        o.config is Ok && !o.config_exists,
        config_missing_message(paths.config_file@),
    ) + when(slack_readiness(*o).1 == SourceReadiness::Warning, slack_id_missing_message());
    assert(warnings.deep_view() =~= first);
    if let Ok(status) = &o.launch_agent_status {
        if !status.loaded {
            let mut m = owned("LaunchAgent ");
            push_str(&mut m, LABEL);
            push_str(&mut m, " is not loaded");
            warnings.push(m);
        }
        assert(warnings.deep_view() =~= first + when(!status.loaded, not_loaded_message()));
        push_all_unique_exec(&mut warnings, &status.warnings);
    }
    let ghost with_status = warnings.deep_view();
    assert(with_status == match o.launch_agent_status {
        Ok(s) => push_all_unique(first + when(!s.loaded, not_loaded_message()), s.warnings.deep_view()),
        Err(_) => first,
    });
    if binary_match_exec(o) == Some(false) {
        push_unique(&mut warnings, owned("registered binary differs from current executable"));
    }
    warnings
}

/// Judges what was observed: configuration, secrets (only whether each is
/// present, never its value), LaunchAgent, daemon socket and binary paths.
pub fn check(paths: &AppPaths, o: &DoctorObservations) -> (r: DoctorReport)
    ensures
        r.concluded(*paths, *o),
{
    let (github_token_present, slack_user_token_present, slack_user_id_present) = secrets_present(
        o,
    );
    let (github_enabled, github_status) = github_readiness_exec(o);
    let (slack_enabled, slack_status) = slack_readiness_exec(o);
    let config_parse = if o.config.is_ok() {
        ParseStatus::Good
    } else {
        ParseStatus::Error
    };
    let (launch_agent_status, launch_agent_loaded, plist_path, plist_exists) =
        match &o.launch_agent_status {
        Ok(status) => (
            CheckStatus::Good,
            Some(status.loaded),
            Some(status.plist_path.clone()),
            Some(o.status_plist_exists),
        ),
        Err(_) => {
            let exists = match &o.fallback_plist_path {
                Some(_) => Some(o.fallback_plist_exists),
                None => None,
            };
            (CheckStatus::Error, None, o.fallback_plist_path.clone(), exists)
        },
    };
    let current_binary_path = match &o.current_binary_path {
        Ok(p) => Some(p.clone()),
        Err(_) => None,
    };
    DoctorReport {
        config_path: paths.config_file.clone(),
        config_exists: o.config_exists,
        config_parse,
        github_enabled,
        github_token_present,
        github_status,
        slack_enabled,
        slack_user_token_present,
        slack_user_id_present,
        slack_status,
        launch_agent_status,
        launch_agent_loaded,
        daemon_ipc: reported_ipc_exec(o),
        socket_path: paths.socket_file.clone(),
        socket_exists: o.socket_exists,
        log_path: paths.daemon_log.clone(),
        log_exists: o.log_exists,
        db_path: paths.db_file.clone(),
        db_exists: o.db_exists,
        plist_path,
        plist_exists,
        registered_binary_path: registered_binary_exec(o),
        current_binary_path,
        binary_path_match: binary_match_exec(o),
        warnings: collect_warnings(paths, o),
        errors: collect_errors(paths, o),
    }
}

// ---------------------------------------------------------------------------
// Laws
// ---------------------------------------------------------------------------

/// The verdict is `error` exactly when the report has errors, which is when
/// `signalpane doctor` exits with a failure.
pub proof fn lemma_overall_error_iff_has_errors(r: DoctorReport)
    ensures
        (r.overall_spec() == OverallStatus::Error) <==> r.errors.deep_view().len() > 0,
{
}

proof fn lemma_same_text(r1: DoctorReport, r2: DoctorReport)
    requires
        r1.config_path@ == r2.config_path@,
        r1.config_exists == r2.config_exists,
        r1.config_parse == r2.config_parse,
        r1.github_enabled == r2.github_enabled,
        r1.github_token_present == r2.github_token_present,
        r1.github_status == r2.github_status,
        r1.slack_enabled == r2.slack_enabled,
        r1.slack_user_token_present == r2.slack_user_token_present,
        r1.slack_user_id_present == r2.slack_user_id_present,
        r1.slack_status == r2.slack_status,
        r1.launch_agent_status == r2.launch_agent_status,
        r1.launch_agent_loaded == r2.launch_agent_loaded,
        r1.daemon_ipc == r2.daemon_ipc,
        r1.socket_path@ == r2.socket_path@,
        r1.socket_exists == r2.socket_exists,
        r1.log_path@ == r2.log_path@,
        r1.log_exists == r2.log_exists,
        r1.db_path@ == r2.db_path@,
        r1.db_exists == r2.db_exists,
        crate::config::opt_view(r1.plist_path) == crate::config::opt_view(r2.plist_path),
        r1.plist_exists == r2.plist_exists,
        crate::config::opt_view(r1.registered_binary_path) == crate::config::opt_view(
            r2.registered_binary_path,
        ),
        crate::config::opt_view(r1.current_binary_path) == crate::config::opt_view(
            r2.current_binary_path,
        ),
        r1.binary_path_match == r2.binary_path_match,
        r1.warnings.deep_view() == r2.warnings.deep_view(),
        r1.errors.deep_view() == r2.errors.deep_view(),
    ensures
        r1.text() == r2.text(),
{
    assert(r1.head_text() == r2.head_text());
    assert(opt_path_text(r1.plist_path) == opt_path_text(r2.plist_path));
    assert(opt_path_text(r1.registered_binary_path) == opt_path_text(r2.registered_binary_path));
    assert(opt_path_text(r1.current_binary_path) == opt_path_text(r2.current_binary_path));
    assert(r1.paths_text() == r2.paths_text());
}

/// Observations that differ only in the values of the secrets, not in which
/// secrets are present, give reports that render to the same text: the doctor
/// never shows a secret's value.
pub proof fn lemma_report_ignores_secret_values(
    paths: AppPaths,
    o1: DoctorObservations,
    o2: DoctorObservations,
    r1: DoctorReport,
    r2: DoctorReport,
)
    requires
        r1.concluded(paths, o1),
        r2.concluded(paths, o2),
        o1.config_exists == o2.config_exists,
        o1.config == o2.config,
        o1.current_binary_path == o2.current_binary_path,
        o1.launch_agent_status == o2.launch_agent_status,
        o1.status_plist_exists == o2.status_plist_exists,
        o1.fallback_plist_path == o2.fallback_plist_path,
        o1.fallback_plist_exists == o2.fallback_plist_exists,
        o1.daemon_ipc == o2.daemon_ipc,
        o1.socket_exists == o2.socket_exists,
        o1.log_exists == o2.log_exists,
        o1.db_exists == o2.db_exists,
        (o1.secrets is Ok) == (o2.secrets is Ok),
        o1.secrets is Err ==> o1.secrets->Err_0@ == o2.secrets->Err_0@,
        github_token_present(o1) == github_token_present(o2),
        slack_user_token_present(o1) == slack_user_token_present(o2),
        slack_user_id_present(o1) == slack_user_id_present(o2),
    ensures
        r1.text() == r2.text(),
{
    assert(github_readiness(o1) == github_readiness(o2));
    assert(slack_readiness(o1) == slack_readiness(o2));
    assert(expected_errors(paths, o1) =~= expected_errors(paths, o2));
    assert(expected_warnings(paths, o1) =~= expected_warnings(paths, o2));
    lemma_same_text(r1, r2);
}


// ---------------------------------------------------------------------------
// The output is made of key=value lines
// ---------------------------------------------------------------------------

/// A `key=value` line: it has an `=`, and neither a tab nor a carriage return.
pub open spec fn kv_line_ok(l: Seq<char>) -> bool {
    &&& exists|i: int| 0 <= i < l.len() && l[i] == '='
    &&& forall|i: int| 0 <= i < l.len() ==> l[i] != '\t' && l[i] != '\r'
}

/// Text made of whole `key=value` lines.
pub open spec fn kv_text(t: Seq<char>) -> bool {
    &&& (t.len() == 0 || t.last() == '\n')
    &&& forall|i: int| 0 <= i < lines(t).len() ==> kv_line_ok(#[trigger] lines(t)[i])
}

/// A key without line breaks or tabs.
pub open spec fn plain_key(k: Seq<char>) -> bool {
    forall|i: int| 0 <= i < k.len() ==> k[i] != '\n' && k[i] != '\r' && k[i] != '\t'
}

proof fn lemma_kv_text_concat(a: Seq<char>, b: Seq<char>)
    requires
        kv_text(a),
        kv_text(b),
    ensures
        kv_text(a + b),
{
    lemma_lines_concat(a, b);
    let ls = lines(a + b);
    assert forall|i: int| 0 <= i < ls.len() implies kv_line_ok(#[trigger] ls[i]) by {
        if i < lines(a).len() {
            assert(ls[i] == lines(a)[i]);
        } else {
            assert(ls[i] == lines(b)[i - lines(a).len()]);
        }
    }
    if b.len() > 0 {
        assert((a + b).last() == b.last());
    } else {
        assert(a + b =~= a);
    }
}

proof fn lemma_kv_line(k: Seq<char>, v: Seq<char>)
    requires
        plain_key(k),
    ensures
        kv_text(kv(k, v)),
{
    let sv = sanitize(v);
    lemma_sanitize_has_no_control(v);
    let x = k + seq!['='] + sv;
    assert forall|j: int| 0 <= j < x.len() implies x[j] != '\n' && x[j] != '\r' && x[j]
        != '\t' by {
        if j < k.len() {
            assert(x[j] == k[j]);
        } else if j > k.len() {
            assert(x[j] == sv[j - k.len() - 1]);
        }
    }
    lemma_lines_single(x);
    assert(strip_cr(x) == x);
    assert(kv(k, v) =~= x + seq!['\n']);
    assert(x[k.len() as int] == '=');
    assert(kv_line_ok(x));
    assert(lines(kv(k, v))[0] == x);
}

proof fn lemma_kv_more(a: Seq<char>, k: Seq<char>, v: Seq<char>)
    requires
        kv_text(a),
        plain_key(k),
    ensures
        kv_text(a + kv(k, v)),
{
    lemma_kv_line(k, v);
    lemma_kv_text_concat(a, kv(k, v));
}

proof fn lemma_kv_all(k: Seq<char>, vs: Seq<Seq<char>>)
    requires
        plain_key(k),
    ensures
        kv_text(kv_all(k, vs)),
    decreases vs.len(),
{
    if vs.len() == 0 {
        assert(lines(Seq::<char>::empty()) =~= Seq::<Seq<char>>::empty());
    } else {
        lemma_kv_all(k, vs.drop_last());
        lemma_kv_more(kv_all(k, vs.drop_last()), k, vs.last());
    }
}

proof fn lemma_keys_plain()
    ensures
        plain_key("overall_status"@),
        plain_key("config_path"@),
        plain_key("config_exists"@),
        plain_key("config_parse"@),
        plain_key("github_enabled"@),
        plain_key("github_token_present"@),
        plain_key("github_status"@),
        plain_key("slack_enabled"@),
        plain_key("slack_user_token_present"@),
        plain_key("slack_user_id_present"@),
        plain_key("slack_status"@),
        plain_key("launch_agent_status"@),
        plain_key("launch_agent_loaded"@),
        plain_key("daemon_ipc"@),
        plain_key("socket_path"@),
        plain_key("socket_exists"@),
        plain_key("log_path"@),
        plain_key("log_exists"@),
        plain_key("db_path"@),
        plain_key("db_exists"@),
        plain_key("plist_path"@),
        plain_key("plist_exists"@),
        plain_key("registered_binary_path"@),
        plain_key("current_binary_path"@),
        plain_key("binary_path_match"@),
        plain_key("warning"@),
        plain_key("error"@),
{
    reveal_strlit("overall_status");
    reveal_strlit("config_path");
    reveal_strlit("config_exists");
    reveal_strlit("config_parse");
    reveal_strlit("github_enabled");
    reveal_strlit("github_token_present");
    reveal_strlit("github_status");
    reveal_strlit("slack_enabled");
    reveal_strlit("slack_user_token_present");
    reveal_strlit("slack_user_id_present");
    reveal_strlit("slack_status");
    reveal_strlit("launch_agent_status");
    reveal_strlit("launch_agent_loaded");
    reveal_strlit("daemon_ipc");
    reveal_strlit("socket_path");
    reveal_strlit("socket_exists");
    reveal_strlit("log_path");
    reveal_strlit("log_exists");
    reveal_strlit("db_path");
    reveal_strlit("db_exists");
    reveal_strlit("plist_path");
    reveal_strlit("plist_exists");
    reveal_strlit("registered_binary_path");
    reveal_strlit("current_binary_path");
    reveal_strlit("binary_path_match");
    reveal_strlit("warning");
    reveal_strlit("error");
}

proof fn lemma_config_text(r: DoctorReport)
    ensures
        kv_text(r.config_text()),
{
    lemma_keys_plain();
    lemma_kv_line("overall_status"@, overall_text(r.overall_spec()));
    let t = kv("overall_status"@, overall_text(r.overall_spec()));
    lemma_kv_more(t, "config_path"@, r.config_path@);
    let t = t + kv("config_path"@, r.config_path@);
    lemma_kv_more(t, "config_exists"@, bool_text(r.config_exists));
    let t = t + kv("config_exists"@, bool_text(r.config_exists));
    lemma_kv_more(t, "config_parse"@, parse_text(r.config_parse));
    let t = t + kv("config_parse"@, parse_text(r.config_parse));
    lemma_kv_more(t, "github_enabled"@, opt_bool_text(r.github_enabled));
    let t = t + kv("github_enabled"@, opt_bool_text(r.github_enabled));
    lemma_kv_more(t, "github_token_present"@, bool_text(r.github_token_present));
    let t = t + kv("github_token_present"@, bool_text(r.github_token_present));
    lemma_kv_more(t, "github_status"@, readiness_text(r.github_status));
}

proof fn lemma_slack_text(r: DoctorReport)
    ensures
        kv_text(r.slack_text()),
{
    lemma_keys_plain();
    lemma_kv_line("slack_enabled"@, opt_bool_text(r.slack_enabled));
    let t = kv("slack_enabled"@, opt_bool_text(r.slack_enabled));
    lemma_kv_more(t, "slack_user_token_present"@, bool_text(r.slack_user_token_present));
    let t = t + kv("slack_user_token_present"@, bool_text(r.slack_user_token_present));
    lemma_kv_more(t, "slack_user_id_present"@, bool_text(r.slack_user_id_present));
    let t = t + kv("slack_user_id_present"@, bool_text(r.slack_user_id_present));
    lemma_kv_more(t, "slack_status"@, readiness_text(r.slack_status));
    let t = t + kv("slack_status"@, readiness_text(r.slack_status));
    lemma_kv_more(t, "launch_agent_status"@, check_text(r.launch_agent_status));
    let t = t + kv("launch_agent_status"@, check_text(r.launch_agent_status));
    lemma_kv_more(t, "launch_agent_loaded"@, opt_bool_text(r.launch_agent_loaded));
    let t = t + kv("launch_agent_loaded"@, opt_bool_text(r.launch_agent_loaded));
    lemma_kv_more(t, "daemon_ipc"@, ipc_status_text(r.daemon_ipc));
}

proof fn lemma_paths_text(r: DoctorReport)
    ensures
        kv_text(r.paths_text()),
{
    lemma_keys_plain();
    lemma_kv_line("socket_path"@, r.socket_path@);
    let t = kv("socket_path"@, r.socket_path@);
    lemma_kv_more(t, "socket_exists"@, bool_text(r.socket_exists));
    let t = t + kv("socket_exists"@, bool_text(r.socket_exists));
    lemma_kv_more(t, "log_path"@, r.log_path@);
    let t = t + kv("log_path"@, r.log_path@);
    lemma_kv_more(t, "log_exists"@, bool_text(r.log_exists));
    let t = t + kv("log_exists"@, bool_text(r.log_exists));
    lemma_kv_more(t, "db_path"@, r.db_path@);
    let t = t + kv("db_path"@, r.db_path@);
    lemma_kv_more(t, "db_exists"@, bool_text(r.db_exists));
    let t = t + kv("db_exists"@, bool_text(r.db_exists));
    lemma_kv_more(t, "plist_path"@, opt_path_text(r.plist_path));
    let t = t + kv("plist_path"@, opt_path_text(r.plist_path));
    lemma_kv_more(t, "plist_exists"@, opt_bool_text(r.plist_exists));
    let t = t + kv("plist_exists"@, opt_bool_text(r.plist_exists));
    lemma_kv_more(t, "registered_binary_path"@, opt_path_text(r.registered_binary_path));
    let t = t + kv("registered_binary_path"@, opt_path_text(r.registered_binary_path));
    lemma_kv_more(t, "current_binary_path"@, opt_path_text(r.current_binary_path));
    let t = t + kv("current_binary_path"@, opt_path_text(r.current_binary_path));
    lemma_kv_more(t, "binary_path_match"@, opt_bool_text(r.binary_path_match));
}

/// Every line that `doctor` prints is a `key=value` line with neither a tab
/// nor a carriage return, and the output ends with a line feed.
pub proof fn lemma_doctor_output_is_key_value(r: DoctorReport)
    ensures
        kv_text(r.text()),
{
    lemma_keys_plain();
    lemma_config_text(r);
    lemma_slack_text(r);
    lemma_kv_text_concat(r.config_text(), r.slack_text());
    lemma_paths_text(r);
    lemma_kv_text_concat(r.head_text(), r.paths_text());
    lemma_kv_all("warning"@, r.warnings.deep_view());
    lemma_kv_text_concat(r.head_text() + r.paths_text(), kv_all("warning"@, r.warnings.deep_view()));
    lemma_kv_all("error"@, r.errors.deep_view());
    lemma_kv_text_concat(
        r.head_text() + r.paths_text() + kv_all("warning"@, r.warnings.deep_view()),
        kv_all("error"@, r.errors.deep_view()),
    );
}


// ---------------------------------------------------------------------------
// The lines of the output, one by one
// ---------------------------------------------------------------------------

/// One printed line: the key, `=`, the sanitized value.
pub open spec fn kv_line(key: Seq<char>, value: Seq<char>) -> Seq<char> {
    key + seq!['='] + sanitize(value)
}

/// One printed line per value, all under the same key.
pub open spec fn kv_lines(key: Seq<char>, values: Seq<Seq<char>>) -> Seq<Seq<char>> {
    Seq::new(values.len(), |i: int| kv_line(key, values[i]))
}

/// The fixed keys of the report, in the order in which they are printed.
pub open spec fn doctor_keys() -> Seq<Seq<char>> {
    seq![
        "overall_status"@, "config_path"@, "config_exists"@, "config_parse"@,
        "github_enabled"@, "github_token_present"@, "github_status"@, "slack_enabled"@,
        "slack_user_token_present"@, "slack_user_id_present"@, "slack_status"@,
        "launch_agent_status"@, "launch_agent_loaded"@, "daemon_ipc"@, "socket_path"@,
        "socket_exists"@, "log_path"@, "log_exists"@, "db_path"@, "db_exists"@,
        "plist_path"@, "plist_exists"@, "registered_binary_path"@, "current_binary_path"@,
        "binary_path_match"@,
    ]
}

impl DoctorReport {
    /// The values of the fixed keys, in the order of `doctor_keys`.
    pub open spec fn head_values(self) -> Seq<Seq<char>> {
        seq![
            overall_text(self.overall_spec()), self.config_path@, bool_text(self.config_exists),
            parse_text(self.config_parse), opt_bool_text(self.github_enabled),
            bool_text(self.github_token_present), readiness_text(self.github_status),
            opt_bool_text(self.slack_enabled), bool_text(self.slack_user_token_present),
            bool_text(self.slack_user_id_present), readiness_text(self.slack_status),
            check_text(self.launch_agent_status), opt_bool_text(self.launch_agent_loaded),
            ipc_status_text(self.daemon_ipc), self.socket_path@, bool_text(self.socket_exists),
            self.log_path@, bool_text(self.log_exists), self.db_path@, bool_text(self.db_exists),
            opt_path_text(self.plist_path), opt_bool_text(self.plist_exists),
            opt_path_text(self.registered_binary_path), opt_path_text(self.current_binary_path),
            opt_bool_text(self.binary_path_match),
        ]
    }

    /// The lines of the fixed keys.
    pub open spec fn head_lines(self) -> Seq<Seq<char>> {
        Seq::new(25, |i: int| kv_line(doctor_keys()[i], self.head_values()[i]))
    }
}

proof fn lemma_lines_kv(a: Seq<char>, k: Seq<char>, v: Seq<char>)
    requires
        a.len() == 0 || a.last() == '\n',
        plain_key(k),
    ensures
        lines(a + kv(k, v)) == lines(a).push(kv_line(k, v)),
        (a + kv(k, v)).last() == '\n',
{
    let sv = sanitize(v);
    lemma_sanitize_has_no_control(v);
    let x = k + seq!['='] + sv;
    assert forall|j: int| 0 <= j < x.len() implies x[j] != '\n' && x[j] != '\r' by {
        if j < k.len() {
            assert(x[j] == k[j]);
        } else if j > k.len() {
            assert(x[j] == sv[j - k.len() - 1]);
        }
    }
    lemma_lines_single(x);
    assert(x[x.len() - 1] != '\r');
    assert(strip_cr(x) == x);
    assert(kv(k, v) =~= x + seq!['\n']);
    lemma_lines_concat(a, kv(k, v));
    assert(seq![x] =~= seq![kv_line(k, v)]);
    assert(lines(a) + seq![kv_line(k, v)] =~= lines(a).push(kv_line(k, v)));
}

proof fn lemma_lines_kv_all(k: Seq<char>, vs: Seq<Seq<char>>)
    requires
        plain_key(k),
    ensures
        lines(kv_all(k, vs)) == kv_lines(k, vs),
        kv_all(k, vs).len() == 0 || kv_all(k, vs).last() == '\n',
    decreases vs.len(),
{
    if vs.len() == 0 {
        assert(lines(Seq::<char>::empty()) =~= Seq::<Seq<char>>::empty());
        assert(kv_lines(k, vs) =~= Seq::<Seq<char>>::empty());
    } else {
        lemma_lines_kv_all(k, vs.drop_last());
        lemma_lines_kv(kv_all(k, vs.drop_last()), k, vs.last());
        assert(kv_lines(k, vs.drop_last()).push(kv_line(k, vs.last())) =~= kv_lines(k, vs));
    }
}

#[verifier::rlimit(60)]
proof fn lemma_head_lines(r: DoctorReport)
    ensures
        lines(r.head_text() + r.paths_text()) == r.head_lines(),
        (r.head_text() + r.paths_text()).last() == '\n',
{
    lemma_keys_plain();
    let v = r.head_values();
    let ks = doctor_keys();
    lemma_prefix_lines(ks, v, 25);
    assert(r.head_lines() =~= Seq::new(25, |j: int| kv_line(ks[j], v[j])));
    lemma_kv_prefix_is_text(r);
}

proof fn lemma_prefix_lines(ks: Seq<Seq<char>>, vs: Seq<Seq<char>>, i: int)
    requires
        0 <= i <= ks.len(),
        i <= vs.len(),
        forall|j: int| 0 <= j < ks.len() ==> plain_key(#[trigger] ks[j]),
    ensures
        lines(kv_prefix(ks, vs, i)) == Seq::new(i as nat, |j: int| kv_line(ks[j], vs[j])),
        kv_prefix(ks, vs, i).len() == 0 || kv_prefix(ks, vs, i).last() == '\n',
    decreases i,
{
    if i == 0 {
        assert(lines(Seq::<char>::empty()) =~= Seq::<Seq<char>>::empty());
        assert(Seq::new(0, |j: int| kv_line(ks[j], vs[j])) =~= Seq::<Seq<char>>::empty());
    } else {
        lemma_prefix_lines(ks, vs, i - 1);
        lemma_lines_kv(kv_prefix(ks, vs, i - 1), ks[i - 1], vs[i - 1]);
        assert(Seq::new((i - 1) as nat, |j: int| kv_line(ks[j], vs[j])).push(
            kv_line(ks[i - 1], vs[i - 1]),
        ) =~= Seq::new(i as nat, |j: int| kv_line(ks[j], vs[j])));
    }
}

/// The first `i` fixed lines as text.
spec fn kv_prefix(ks: Seq<Seq<char>>, vs: Seq<Seq<char>>, i: int) -> Seq<char>
    decreases i,
{
    if i <= 0 {
        seq![]
    } else {
        kv_prefix(ks, vs, i - 1) + kv(ks[i - 1], vs[i - 1])
    }
}

proof fn lemma_kv_prefix_split(ks: Seq<Seq<char>>, vs: Seq<Seq<char>>, lo: int, hi: int)
    requires
        0 <= lo <= hi,
    ensures
        kv_prefix(ks, vs, hi) == kv_prefix(ks, vs, lo) + kv_block(ks, vs, lo, hi),
    decreases hi - lo,
{
    if hi > lo {
        lemma_kv_prefix_split(ks, vs, lo, hi - 1);
        assert(kv_prefix(ks, vs, lo) + kv_block(ks, vs, lo, hi) =~= kv_prefix(ks, vs, lo)
            + kv_block(ks, vs, lo, hi - 1) + kv(ks[hi - 1], vs[hi - 1]));
    } else {
        assert(kv_prefix(ks, vs, lo) + kv_block(ks, vs, lo, hi) =~= kv_prefix(ks, vs, lo));
    }
}

/// The fixed lines from `lo` up to `hi` as text.
spec fn kv_block(ks: Seq<Seq<char>>, vs: Seq<Seq<char>>, lo: int, hi: int) -> Seq<char>
    decreases hi - lo,
{
    if hi <= lo {
        seq![]
    } else {
        kv_block(ks, vs, lo, hi - 1) + kv(ks[hi - 1], vs[hi - 1])
    }
}

proof fn lemma_config_block(r: DoctorReport)
    ensures
        kv_block(doctor_keys(), r.head_values(), 0, 7) == r.config_text(),
{
    let ks = doctor_keys();
    let v = r.head_values();
    assert(kv_block(ks, v, 0, 0) == Seq::<char>::empty());
    assert(kv_block(ks, v, 0, 1) =~= kv(ks[0], v[0]));
    assert(kv_block(ks, v, 0, 2) == kv_block(ks, v, 0, 1) + kv(ks[1], v[1]));
    assert(kv_block(ks, v, 0, 3) == kv_block(ks, v, 0, 2) + kv(ks[2], v[2]));
    assert(kv_block(ks, v, 0, 4) == kv_block(ks, v, 0, 3) + kv(ks[3], v[3]));
    assert(kv_block(ks, v, 0, 5) == kv_block(ks, v, 0, 4) + kv(ks[4], v[4]));
    assert(kv_block(ks, v, 0, 6) == kv_block(ks, v, 0, 5) + kv(ks[5], v[5]));
    assert(kv_block(ks, v, 0, 7) == kv_block(ks, v, 0, 6) + kv(ks[6], v[6]));
}

proof fn lemma_slack_block(r: DoctorReport)
    ensures
        kv_block(doctor_keys(), r.head_values(), 7, 14) == r.slack_text(),
{
    let ks = doctor_keys();
    let v = r.head_values();
    assert(kv_block(ks, v, 7, 7) == Seq::<char>::empty());
    assert(kv_block(ks, v, 7, 8) =~= kv(ks[7], v[7]));
    assert(kv_block(ks, v, 7, 9) == kv_block(ks, v, 7, 8) + kv(ks[8], v[8]));
    assert(kv_block(ks, v, 7, 10) == kv_block(ks, v, 7, 9) + kv(ks[9], v[9]));
    assert(kv_block(ks, v, 7, 11) == kv_block(ks, v, 7, 10) + kv(ks[10], v[10]));
    assert(kv_block(ks, v, 7, 12) == kv_block(ks, v, 7, 11) + kv(ks[11], v[11]));
    assert(kv_block(ks, v, 7, 13) == kv_block(ks, v, 7, 12) + kv(ks[12], v[12]));
    assert(kv_block(ks, v, 7, 14) == kv_block(ks, v, 7, 13) + kv(ks[13], v[13]));
}

#[verifier::rlimit(40)]
proof fn lemma_paths_block(r: DoctorReport)
    ensures
        kv_block(doctor_keys(), r.head_values(), 14, 25) == r.paths_text(),
{
    let ks = doctor_keys();
    let v = r.head_values();
    assert(kv_block(ks, v, 14, 14) == Seq::<char>::empty());
    assert(kv_block(ks, v, 14, 15) =~= kv(ks[14], v[14]));
    assert(kv_block(ks, v, 14, 16) == kv_block(ks, v, 14, 15) + kv(ks[15], v[15]));
    assert(kv_block(ks, v, 14, 17) == kv_block(ks, v, 14, 16) + kv(ks[16], v[16]));
    assert(kv_block(ks, v, 14, 18) == kv_block(ks, v, 14, 17) + kv(ks[17], v[17]));
    assert(kv_block(ks, v, 14, 19) == kv_block(ks, v, 14, 18) + kv(ks[18], v[18]));
    assert(kv_block(ks, v, 14, 20) == kv_block(ks, v, 14, 19) + kv(ks[19], v[19]));
    assert(kv_block(ks, v, 14, 21) == kv_block(ks, v, 14, 20) + kv(ks[20], v[20]));
    assert(kv_block(ks, v, 14, 22) == kv_block(ks, v, 14, 21) + kv(ks[21], v[21]));
    assert(kv_block(ks, v, 14, 23) == kv_block(ks, v, 14, 22) + kv(ks[22], v[22]));
    assert(kv_block(ks, v, 14, 24) == kv_block(ks, v, 14, 23) + kv(ks[23], v[23]));
    assert(kv_block(ks, v, 14, 25) == kv_block(ks, v, 14, 24) + kv(ks[24], v[24]));
}

proof fn lemma_kv_prefix_is_text(r: DoctorReport)
    ensures
        kv_prefix(doctor_keys(), r.head_values(), 25) == r.head_text() + r.paths_text(),
{
    let ks = doctor_keys();
    let v = r.head_values();
    lemma_kv_prefix_split(ks, v, 0, 7);
    lemma_kv_prefix_split(ks, v, 7, 14);
    lemma_kv_prefix_split(ks, v, 14, 25);
    lemma_config_block(r);
    lemma_slack_block(r);
    lemma_paths_block(r);
    assert(kv_prefix(ks, v, 0) == Seq::<char>::empty());
    assert(kv_prefix(ks, v, 25) =~= r.head_text() + r.paths_text());
}

proof fn lemma_keys_start()
    ensures
        forall|j: int| 0 <= j < 25 ==> (#[trigger] doctor_keys()[j]).len() > 0 && doctor_keys()[j][0] != 'e',
        "warning"@.len() > 0 && "warning"@[0] == 'w',
        "error="@ == "error"@ + seq!['='],
        "warning="@ == "warning"@ + seq!['='],
        "overall_status="@ == "overall_status"@ + seq!['='],
{
    reveal_strlit("overall_status");
    reveal_strlit("config_path");
    reveal_strlit("config_exists");
    reveal_strlit("config_parse");
    reveal_strlit("github_enabled");
    reveal_strlit("github_token_present");
    reveal_strlit("github_status");
    reveal_strlit("slack_enabled");
    reveal_strlit("slack_user_token_present");
    reveal_strlit("slack_user_id_present");
    reveal_strlit("slack_status");
    reveal_strlit("launch_agent_status");
    reveal_strlit("launch_agent_loaded");
    reveal_strlit("daemon_ipc");
    reveal_strlit("socket_path");
    reveal_strlit("socket_exists");
    reveal_strlit("log_path");
    reveal_strlit("log_exists");
    reveal_strlit("db_path");
    reveal_strlit("db_exists");
    reveal_strlit("plist_path");
    reveal_strlit("plist_exists");
    reveal_strlit("registered_binary_path");
    reveal_strlit("current_binary_path");
    reveal_strlit("binary_path_match");
    reveal_strlit("warning");
    reveal_strlit("error");
    reveal_strlit("error=");
    reveal_strlit("warning=");
    reveal_strlit("overall_status=");
    assert("error="@ =~= "error"@ + seq!['=']);
    assert("warning="@ =~= "warning"@ + seq!['=']);
    assert("overall_status="@ =~= "overall_status"@ + seq!['=']);
}

/// The printed status word needs no sanitizing.
proof fn lemma_overall_text_plain(s: OverallStatus)
    ensures
        sanitize(overall_text(s)) == overall_text(s),
        overall_text(s).len() >= 2,
        (overall_text(s)[0] == 'e') <==> s == OverallStatus::Error,
{
    reveal_strlit("ok");
    reveal_strlit("warning");
    reveal_strlit("error");
    assert(sanitize(overall_text(s)) =~= overall_text(s));
}

/// The lines that `doctor` prints: the 25 fixed keys in their order, each with
/// its value, then one `warning=` line per warning and one `error=` line per
/// error, in order; values have their line feeds, carriage returns and tabs
/// turned into spaces. The first line is the overall status.
pub proof fn lemma_doctor_lines(r: DoctorReport)
    ensures
        lines(r.text()) == r.head_lines() + kv_lines("warning"@, r.warnings.deep_view())
            + kv_lines("error"@, r.errors.deep_view()),
        lines(r.text()).len() == 25 + r.warnings.deep_view().len() + r.errors.deep_view().len(),
        r.text().last() == '\n',
        lines(r.text())[0] == "overall_status="@ + overall_text(r.overall_spec()),
        forall|i: int|
            0 <= i < 25 ==> starts_with(
                #[trigger] lines(r.text())[i],
                doctor_keys()[i] + seq!['='],
            ),
        forall|j: int|
            0 <= j < r.warnings.deep_view().len() ==> #[trigger] lines(r.text())[25 + j]
                == "warning="@ + sanitize(r.warnings.deep_view()[j]),
        forall|j: int|
            0 <= j < r.errors.deep_view().len() ==> #[trigger] lines(
                r.text(),
            )[25 + r.warnings.deep_view().len() + j] == "error="@ + sanitize(
                r.errors.deep_view()[j],
            ),
{
    let w = r.warnings.deep_view();
    let e = r.errors.deep_view();
    lemma_keys_plain();
    lemma_keys_start();
    lemma_head_lines(r);
    lemma_lines_kv_all("warning"@, w);
    lemma_lines_kv_all("error"@, e);
    let h = r.head_text() + r.paths_text();
    lemma_lines_concat(h, kv_all("warning"@, w));
    let hw = h + kv_all("warning"@, w);
    assert(hw.last() == '\n') by {
        if kv_all("warning"@, w).len() == 0 {
            assert(hw =~= h);
        }
    }
    lemma_lines_concat(hw, kv_all("error"@, e));
    assert(r.text() =~= hw + kv_all("error"@, e));
    let ls = lines(r.text());
    assert(ls =~= r.head_lines() + kv_lines("warning"@, w) + kv_lines("error"@, e));
    if kv_all("error"@, e).len() > 0 {
        assert(r.text().last() == kv_all("error"@, e).last());
    }
    lemma_overall_text_plain(r.overall_spec());
    assert(ls[0] == kv_line("overall_status"@, overall_text(r.overall_spec())));
    assert forall|i: int| 0 <= i < 25 implies starts_with(
        #[trigger] ls[i],
        doctor_keys()[i] + seq!['='],
    ) by {
        let k = doctor_keys()[i];
        assert(ls[i] == kv_line(k, r.head_values()[i]));
        assert(ls[i].take((k + seq!['=']).len() as int) =~= k + seq!['=']);
    }
    assert forall|j: int| 0 <= j < w.len() implies #[trigger] ls[25 + j] == "warning="@ + sanitize(w[j]) by {
        assert(ls[25 + j] == kv_lines("warning"@, w)[j]);
    }
    assert forall|j: int| 0 <= j < e.len() implies #[trigger] ls[25 + w.len() + j] == "error="@
        + sanitize(e[j]) by {
        assert(ls[25 + w.len() + j] == kv_lines("error"@, e)[j]);
    }
}

#[verifier::spinoff_prover]
#[verifier::rlimit(60)]
proof fn lemma_text_first_line(r: DoctorReport)
    ensures
        r.text() == kv("overall_status"@, overall_text(r.overall_spec())) + r.text().skip(
            kv("overall_status"@, overall_text(r.overall_spec())).len() as int,
        ),
{
    let ks = doctor_keys();
    let v = r.head_values();
    lemma_kv_prefix_is_text(r);
    lemma_kv_prefix_split(ks, v, 1, 25);
    assert(kv_prefix(ks, v, 0) == Seq::<char>::empty());
    assert(kv_prefix(ks, v, 1) =~= kv(ks[0], v[0]));
    let first = kv("overall_status"@, overall_text(r.overall_spec()));
    assert(kv(ks[0], v[0]) == first);
    let rest = kv_block(ks, v, 1, 25) + kv_all("warning"@, r.warnings.deep_view()) + kv_all(
        "error"@,
        r.errors.deep_view(),
    );
    assert(r.text() =~= first + rest);
    assert(r.text().skip(first.len() as int) =~= rest);
}

proof fn lemma_error_status_prefix(r: DoctorReport)
    ensures
        (r.errors.deep_view().len() > 0) <==> starts_with(r.text(), "overall_status=error\n"@),
{
    lemma_text_first_line(r);
    lemma_overall_text_plain(r.overall_spec());
    reveal_strlit("overall_status=error\n");
    reveal_strlit("overall_status");
    reveal_strlit("error");
    let first = kv("overall_status"@, overall_text(r.overall_spec()));
    let t = r.text();
    assert(first.len() >= 18);
    assert(t.take(first.len() as int) =~= first);
    assert(t[15] == first[15]);
    assert(first[15] == overall_text(r.overall_spec())[0]);
    if r.errors.deep_view().len() > 0 {
        assert(first =~= "overall_status=error\n"@);
        assert(t.take(21) =~= "overall_status=error\n"@);
    } else {
        if starts_with(t, "overall_status=error\n"@) {
            assert(t.take(21)[15] == t[15]);
            assert("overall_status=error\n"@[15] == 'e');
        }
    }
}

proof fn lemma_error_lines(r: DoctorReport)
    ensures
        (r.errors.deep_view().len() > 0) <==> exists|i: int|
            0 <= i < lines(r.text()).len() && starts_with(#[trigger] lines(r.text())[i], "error="@),
{
    let w = r.warnings.deep_view();
    let e = r.errors.deep_view();
    lemma_doctor_lines(r);
    lemma_keys_start();
    reveal_strlit("error=");
    reveal_strlit("warning=");
    let ls = lines(r.text());
    if e.len() > 0 {
        let at = 25 + w.len() as int;
        assert(ls[at] == "error="@ + sanitize(e[0]));
        assert(ls[at].take(6) =~= "error="@);
        assert(starts_with(ls[at], "error="@));
    } else {
        assert forall|i: int| 0 <= i < ls.len() implies !starts_with(
            #[trigger] ls[i],
            "error="@,
        ) by {
            if starts_with(ls[i], "error="@) {
                assert(ls[i].take(6)[0] == ls[i][0]);
                if i < 25 {
                    let k = doctor_keys()[i];
                    assert(starts_with(ls[i], k + seq!['=']));
                    assert(ls[i].take((k + seq!['=']).len() as int)[0] == ls[i][0]);
                } else {
                    assert(ls[i] == "warning="@ + sanitize(w[i - 25]));
                    assert(ls[i][0] == 'w');
                }
            }
        }
    }
}

/// The report has errors exactly when the output begins with
/// `overall_status=error` and exactly when one of its lines begins with
/// `error=`: no fixed key and no warning line begins that way.
pub proof fn lemma_has_errors_iff_error_lines(r: DoctorReport)
    ensures
        (r.errors.deep_view().len() > 0) <==> starts_with(r.text(), "overall_status=error\n"@),
        (r.errors.deep_view().len() > 0) <==> exists|i: int|
            0 <= i < lines(r.text()).len() && starts_with(#[trigger] lines(r.text())[i], "error="@),
{
    lemma_error_status_prefix(r);
    lemma_error_lines(r);
}

proof fn lemma_push_all_unique_keeps(values: Seq<Seq<char>>, items: Seq<Seq<char>>, x: Seq<char>)
    requires
        values.contains(x),
    ensures
        push_all_unique(values, items).contains(x),
    decreases items.len(),
{
    if items.len() > 0 {
        let next = push_unique_spec(values, items[0]);
        if !values.contains(items[0]) {
            let k = choose|k: int| 0 <= k < values.len() && values[k] == x;
            assert(next[k] == x);
        }
        lemma_push_all_unique_keeps(next, items.drop_first(), x);
    }
}

/// A LaunchAgent that launchd reports as not loaded (a foreground daemon may
/// be answering instead) is always warned about, so the overall status is
/// never `ok` then.
pub proof fn lemma_unloaded_agent_is_warned(paths: AppPaths, o: DoctorObservations, r: DoctorReport)
    requires
        r.concluded(paths, o),
        o.launch_agent_status is Ok,
        !o.launch_agent_status->Ok_0.loaded,
    ensures
        r.warnings.deep_view().contains("LaunchAgent "@ + LABEL@ + " is not loaded"@),
        r.overall_spec() != OverallStatus::Good,
{
    let s = o.launch_agent_status->Ok_0;
    let msg = "LaunchAgent "@ + LABEL@ + " is not loaded"@;
    let first = when(o.config is Ok && !o.config_exists, config_missing_message(paths.config_file@))
        + when(slack_readiness(o).1 == SourceReadiness::Warning, slack_id_missing_message());
    let base = first + when(!s.loaded, not_loaded_message());
    assert(base[first.len() as int] == msg);
    lemma_push_all_unique_keeps(base, s.warnings.deep_view(), msg);
    let with_status = push_all_unique(base, s.warnings.deep_view());
    if binary_match(o) == Some(false) {
        let k = choose|k: int| 0 <= k < with_status.len() && with_status[k] == msg;
        assert(push_unique_spec(with_status, binary_mismatch_message())[k] == msg);
    }
    assert(r.warnings.deep_view().len() > 0);
}

/// What each finding of `doctor` makes it report: an unreadable config or
/// secrets, an enabled source without its token, an unknown binary or
/// LaunchAgent status and an unreachable daemon are errors; a Slack user ID
/// that is missing while the token is there is a warning. The report has no
/// error exactly when none of the error findings holds.
pub proof fn lemma_doctor_findings(paths: AppPaths, o: DoctorObservations, r: DoctorReport)
    requires
        r.concluded(paths, o),
    ensures
        o.config is Err ==> r.errors.deep_view().contains(
            "config parse failed: "@ + o.config->Err_0@,
        ),
        o.secrets is Err ==> r.errors.deep_view().contains(
            "secrets load failed: "@ + o.secrets->Err_0@,
        ),
        (o.config is Ok && o.config->Ok_0.github.enabled && !(o.secrets is Ok
            && o.secrets->Ok_0.github_token is Some)) ==> r.errors.deep_view().contains(
            "github is enabled but "@ + GITHUB_TOKEN_ENV@ + " is not present"@,
        ),
        (o.config is Ok && o.config->Ok_0.slack.enabled && !(o.secrets is Ok
            && o.secrets->Ok_0.slack_user_token is Some)) ==> r.errors.deep_view().contains(
            "slack is enabled but "@ + SLACK_USER_TOKEN_ENV@ + " is not present"@,
        ),
        (o.config is Ok && o.config->Ok_0.slack.enabled && o.secrets is Ok
            && o.secrets->Ok_0.slack_user_token is Some && o.secrets->Ok_0.slack_user_id is None)
            ==> r.warnings.deep_view().contains(
            "slack is enabled but "@ + SLACK_USER_ID_ENV@
                + " is not present; runtime will resolve it with auth.test"@,
        ),
        (match o.launch_agent_status {
            Ok(s) => s.daemon_ipc,
            Err(_) => o.daemon_ipc,
        }) == DaemonIpcStatus::Unreachable ==> r.errors.deep_view().contains(
            "daemon IPC is unreachable at "@ + paths.socket_file@,
        ),
        (r.errors.deep_view().len() == 0) <==> (o.config is Ok && o.secrets is Ok
            && o.current_binary_path is Ok && o.launch_agent_status is Ok
            && !(o.config->Ok_0.github.enabled && o.secrets->Ok_0.github_token is None)
            && !(o.config->Ok_0.slack.enabled && o.secrets->Ok_0.slack_user_token is None)
            && o.launch_agent_status->Ok_0.daemon_ipc != DaemonIpcStatus::Unreachable),
{
    let p1 = match o.config {
        Err(e) => seq!["config parse failed: "@ + e@],
        Ok(_) => seq![],
    };
    let p2 = match o.secrets {
        Err(e) => seq!["secrets load failed: "@ + e@],
        Ok(_) => seq![],
    };
    let p3 = when(github_readiness(o).1 == SourceReadiness::Error, github_token_missing_message());
    let p4 = when(slack_readiness(o).1 == SourceReadiness::Error, slack_token_missing_message());
    let p5 = match o.current_binary_path {
        Err(e) => seq!["current binary path unavailable: "@ + e@],
        Ok(_) => seq![],
    };
    let p6 = match o.launch_agent_status {
        Err(e) => seq!["LaunchAgent status unavailable: "@ + e@],
        Ok(_) => seq![],
    };
    let p7 = when(
        reported_ipc(o) == DaemonIpcStatus::Unreachable,
        ipc_unreachable_message(paths.socket_file@),
    );
    let errs = r.errors.deep_view();
    assert(errs == p1 + p2 + p3 + p4 + p5 + p6 + p7);
    if o.config is Err {
        assert(errs[0] == p1[0]);
    }
    if o.secrets is Err {
        assert(errs[p1.len() as int] == p2[0]);
    }
    if p3.len() > 0 {
        assert(errs[(p1 + p2).len() as int] == p3[0]);
    }
    if p4.len() > 0 {
        assert(errs[(p1 + p2 + p3).len() as int] == p4[0]);
    }
    if p7.len() > 0 {
        assert(errs[(p1 + p2 + p3 + p4 + p5 + p6).len() as int] == p7[0]);
    }
    if slack_readiness(o).1 == SourceReadiness::Warning {
        let first = when(
            o.config is Ok && !o.config_exists,
            config_missing_message(paths.config_file@),
        ) + when(true, slack_id_missing_message());
        assert(first[first.len() - 1] == slack_id_missing_message());
        assert(first.contains(slack_id_missing_message()));
        let with_status = match o.launch_agent_status {
            Ok(s) => {
                let base = first + when(!s.loaded, not_loaded_message());
                assert(base[first.len() - 1] == slack_id_missing_message());
                lemma_push_all_unique_keeps(base, s.warnings.deep_view(), slack_id_missing_message());
                push_all_unique(base, s.warnings.deep_view())
            },
            Err(_) => first,
        };
        assert(with_status.contains(slack_id_missing_message()));
        if binary_match(o) == Some(false) {
            let k = choose|k: int|
                0 <= k < with_status.len() && with_status[k] == slack_id_missing_message();
            assert(push_unique_spec(with_status, binary_mismatch_message())[k]
                == slack_id_missing_message());
        }
    }
}

} // verus!
