//! The command line: its grammar, and the text that the commands print.
use vstd::prelude::*;
use vstd::string::*;

use crate::config::{all_keys_spec, env_name_spec, opt_view, SecretKey, Secrets};
use crate::launch_agent::{ipc_status_text, LaunchAgentStatus};
use crate::logging::{LogTail, DEFAULT_LOG_LINES};
use crate::model::SourceStatus;
use crate::text::{
    decimal, owned, parse_i64, parse_i64_spec, parse_u64_spec, parse_usize, push_char, push_i64,
    push_str, push_u64, sanitize, sanitize_cli_value, signed_decimal, starts_with, str_eq,
    str_starts_with,
};
use crate::time::{rfc3339_of, UtcTime};

verus! {

/// A parsed command line.
#[derive(Debug, Clone, PartialEq, Eq, Structural)]
pub struct Cli {
    pub command: Command,
}

/// The subcommands.
#[derive(Debug, Clone, Copy, PartialEq, Eq, Structural)]
pub enum Command {
    Daemon { foreground: bool },
    Config { command: ConfigCommand },
    Secrets { command: SecretsCommand },
    Tui,
    Status,
    Doctor,
    Sources,
    MarkRead { id: i64 },
    Log { lines: usize },
    LaunchAgent { command: LaunchAgentCommand },
}

/// `launch-agent` subcommands.
#[derive(Debug, Clone, Copy, PartialEq, Eq, Structural)]
pub enum LaunchAgentCommand {
    Install,
    Start,
    Stop,
    Uninstall,
    Status,
    Restart,
    Logs { lines: usize },
}

/// `config` subcommands.
#[derive(Debug, Clone, Copy, PartialEq, Eq, Structural)]
pub enum ConfigCommand {
    Init,
    List,
}

/// `secrets` subcommands.
#[derive(Debug, Clone, Copy, PartialEq, Eq, Structural)]
pub enum SecretsCommand {
    Path,
    Check,
    SetSecret { command: SecretsSetCommand },
}

/// `secrets set` subcommands.
#[derive(Debug, Clone, Copy, PartialEq, Eq, Structural)]
pub enum SecretsSetCommand {
    GithubToken,
    SlackUserToken,
    SlackUserId,
}

impl SecretsSetCommand {
    /// The secret that the subcommand sets.
    pub fn secret_key(&self) -> (r: SecretKey)
        ensures
            r == match *self {
                SecretsSetCommand::GithubToken => SecretKey::GithubToken,
                SecretsSetCommand::SlackUserToken => SecretKey::SlackUserToken,
                SecretsSetCommand::SlackUserId => SecretKey::SlackUserId,
            },
    {
        match self {
            SecretsSetCommand::GithubToken => SecretKey::GithubToken,
            SecretsSetCommand::SlackUserToken => SecretKey::SlackUserToken,
            SecretsSetCommand::SlackUserId => SecretKey::SlackUserId,
        }
    }
}

/// Why a command line did not parse to a command.
#[derive(Debug, Clone, PartialEq, Eq)]
pub enum CliError {
    /// `--help` or `-h` was given.
    HelpRequested,
    /// `--version` or `-V` was given before any subcommand.
    VersionRequested,
    /// The arguments do not form a command; the message says why.
    Invalid(String),
}

/// The outcome of parsing, with messages as text.
pub enum ParseOutcome {
    Parsed(Command),
    Help,
    Version,
    Invalid(Seq<char>),
}

pub open spec fn unexpected_argument(t: Seq<char>) -> Seq<char> {
    "unexpected argument '"@ + t + "' found"@
}

pub open spec fn unrecognized_subcommand(t: Seq<char>) -> Seq<char> {
    "unrecognized subcommand '"@ + t + "'"@
}

pub open spec fn missing_subcommand() -> Seq<char> {
    "a subcommand is required"@
}

pub open spec fn missing_lines_value() -> Seq<char> {
    "a value is required for '--lines <LINES>' but none was supplied"@
}

pub open spec fn invalid_lines_value(v: Seq<char>) -> Seq<char> {
    "invalid value '"@ + v + "' for '--lines <LINES>'"@
}

pub open spec fn missing_id() -> Seq<char> {
    "the following required arguments were not provided: <ID>"@
}

pub open spec fn invalid_id(v: Seq<char>) -> Seq<char> {
    "invalid value '"@ + v + "' for '<ID>'"@
}

/// The tokens' text.
pub open spec fn token_text(args: Seq<&str>) -> Seq<Seq<char>> {
    args.map_values(|s: &str| s@)
}

/// The text of the arguments after the program name.
pub open spec fn arguments(args: Seq<&str>) -> Seq<Seq<char>> {
    if args.len() == 0 {
        Seq::<Seq<char>>::empty()
    } else {
        token_text(args).skip(1)
    }
}

/// A command that takes no further arguments.
pub open spec fn no_more(ts: Seq<Seq<char>>, c: Command) -> ParseOutcome {
    if ts.len() == 0 {
        ParseOutcome::Parsed(c)
    } else {
        ParseOutcome::Invalid(unexpected_argument(ts[0]))
    }
}

/// The value of `--lines`, 100 when it is not given.
pub open spec fn lines_option(ts: Seq<Seq<char>>) -> Result<usize, Seq<char>> {
    if ts.len() == 0 {
        Ok(DEFAULT_LOG_LINES)
    } else if ts[0] == "--lines"@ {
        if ts.len() == 1 {
            Err(missing_lines_value())
        } else if usize_value(ts[1]) is None {
            Err(invalid_lines_value(ts[1]))
        } else if ts.len() > 2 {
            Err(unexpected_argument(ts[2]))
        } else {
            Ok(usize_value(ts[1])->Some_0)
        }
    } else if starts_with(ts[0], "--lines="@) {
        let v = ts[0].skip(8);
        if usize_value(v) is None {
            Err(invalid_lines_value(v))
        } else if ts.len() > 1 {
            Err(unexpected_argument(ts[1]))
        } else {
            Ok(usize_value(v)->Some_0)
        }
    } else {
        Err(unexpected_argument(ts[0]))
    }
}

/// A `usize` written in decimal.
pub open spec fn usize_value(t: Seq<char>) -> Option<usize> {
    match parse_u64_spec(t) {
        Some(n) => if n <= usize::MAX {
            Some(n as usize)
        } else {
            None
        },
        None => None,
    }
}

pub open spec fn with_lines(ts: Seq<Seq<char>>, f: spec_fn(usize) -> Command) -> ParseOutcome {
    match lines_option(ts) {
        Ok(n) => ParseOutcome::Parsed(f(n)),
        Err(m) => ParseOutcome::Invalid(m),
    }
}

pub open spec fn parse_daemon(ts: Seq<Seq<char>>) -> ParseOutcome {
    if ts.len() == 0 {
        ParseOutcome::Parsed(Command::Daemon { foreground: false })
    } else if ts[0] == "--foreground"@ {
        no_more(ts.drop_first(), Command::Daemon { foreground: true })
    } else {
        ParseOutcome::Invalid(unexpected_argument(ts[0]))
    }
}

pub open spec fn parse_config(ts: Seq<Seq<char>>) -> ParseOutcome {
    if ts.len() == 0 {
        ParseOutcome::Invalid(missing_subcommand())
    } else if ts[0] == "init"@ {
        no_more(ts.drop_first(), Command::Config { command: ConfigCommand::Init })
    } else if ts[0] == "list"@ {
        no_more(ts.drop_first(), Command::Config { command: ConfigCommand::List })
    } else {
        ParseOutcome::Invalid(unrecognized_subcommand(ts[0]))
    }
}

pub open spec fn parse_secrets_set(ts: Seq<Seq<char>>) -> ParseOutcome {
    let set = |c: SecretsSetCommand| Command::Secrets { command: SecretsCommand::SetSecret { command: c } };
    if ts.len() == 0 {
        ParseOutcome::Invalid(missing_subcommand())
    } else if ts[0] == "github-token"@ {
        no_more(ts.drop_first(), set(SecretsSetCommand::GithubToken))
    } else if ts[0] == "slack-user-token"@ {
        no_more(ts.drop_first(), set(SecretsSetCommand::SlackUserToken))
    } else if ts[0] == "slack-user-id"@ {
        no_more(ts.drop_first(), set(SecretsSetCommand::SlackUserId))
    } else {
        ParseOutcome::Invalid(unrecognized_subcommand(ts[0]))
    }
}

pub open spec fn parse_secrets(ts: Seq<Seq<char>>) -> ParseOutcome {
    if ts.len() == 0 {
        ParseOutcome::Invalid(missing_subcommand())
    } else if ts[0] == "path"@ {
        no_more(ts.drop_first(), Command::Secrets { command: SecretsCommand::Path })
    } else if ts[0] == "check"@ {
        no_more(ts.drop_first(), Command::Secrets { command: SecretsCommand::Check })
    } else if ts[0] == "set"@ {
        parse_secrets_set(ts.drop_first())
    } else {
        ParseOutcome::Invalid(unrecognized_subcommand(ts[0]))
    }
}

pub open spec fn parse_launch_agent(ts: Seq<Seq<char>>) -> ParseOutcome {
    let la = |c: LaunchAgentCommand| Command::LaunchAgent { command: c };
    if ts.len() == 0 {
        ParseOutcome::Invalid(missing_subcommand())
    } else if ts[0] == "install"@ {
        no_more(ts.drop_first(), la(LaunchAgentCommand::Install))
    } else if ts[0] == "start"@ {
        no_more(ts.drop_first(), la(LaunchAgentCommand::Start))
    } else if ts[0] == "stop"@ {
        no_more(ts.drop_first(), la(LaunchAgentCommand::Stop))
    } else if ts[0] == "uninstall"@ {
        no_more(ts.drop_first(), la(LaunchAgentCommand::Uninstall))
    } else if ts[0] == "status"@ {
        no_more(ts.drop_first(), la(LaunchAgentCommand::Status))
    } else if ts[0] == "restart"@ {
        no_more(ts.drop_first(), la(LaunchAgentCommand::Restart))
    } else if ts[0] == "logs"@ {
        with_lines(
            ts.drop_first(),
            |n: usize| Command::LaunchAgent { command: LaunchAgentCommand::Logs { lines: n } },
        )
    } else {
        ParseOutcome::Invalid(unrecognized_subcommand(ts[0]))
    }
}

pub open spec fn parse_mark_read(ts: Seq<Seq<char>>) -> ParseOutcome {
    if ts.len() == 0 {
        ParseOutcome::Invalid(missing_id())
    } else if ts[0].len() > 1 && ts[0][0] == '-' {
        ParseOutcome::Invalid(unexpected_argument(ts[0]))
    } else if parse_i64_spec(ts[0]) is None {
        ParseOutcome::Invalid(invalid_id(ts[0]))
    } else {
        no_more(ts.drop_first(), Command::MarkRead { id: parse_i64_spec(ts[0])->Some_0 })
    }
}

/// `-h` or `--help`.
pub open spec fn is_help(t: Seq<char>) -> bool {
    t == "--help"@ || t == "-h"@
}

/// The meaning of the tokens that follow the program name.
pub open spec fn parse_tokens(ts: Seq<Seq<char>>) -> ParseOutcome {
    if exists|i: int| 0 <= i < ts.len() && is_help(#[trigger] ts[i]) {
        ParseOutcome::Help
    } else if ts.len() > 0 && (ts[0] == "--version"@ || ts[0] == "-V"@) {
        ParseOutcome::Version
    } else if ts.len() == 0 {
        ParseOutcome::Invalid(missing_subcommand())
    } else {
        let rest = ts.drop_first();
        if ts[0] == "daemon"@ {
            parse_daemon(rest)
        } else if ts[0] == "config"@ {
            parse_config(rest)
        } else if ts[0] == "secrets"@ {
            parse_secrets(rest)
        } else if ts[0] == "tui"@ {
            no_more(rest, Command::Tui)
        } else if ts[0] == "status"@ {
            no_more(rest, Command::Status)
        } else if ts[0] == "doctor"@ {
            no_more(rest, Command::Doctor)
        } else if ts[0] == "sources"@ {
            no_more(rest, Command::Sources)
        } else if ts[0] == "mark-read"@ {
            parse_mark_read(rest)
        } else if ts[0] == "log"@ {
            with_lines(rest, |n: usize| Command::Log { lines: n })
        } else if ts[0] == "launch-agent"@ {
            parse_launch_agent(rest)
        } else {
            ParseOutcome::Invalid(unrecognized_subcommand(ts[0]))
        }
    }
}

/// The outcome of a parse as the spec writes it.
pub open spec fn outcome_of(r: Result<Cli, CliError>) -> ParseOutcome {
    match r {
        Ok(c) => ParseOutcome::Parsed(c.command),
        Err(CliError::HelpRequested) => ParseOutcome::Help,
        Err(CliError::VersionRequested) => ParseOutcome::Version,
        Err(CliError::Invalid(m)) => ParseOutcome::Invalid(m@),
    }
}

fn unexpected_argument_exec(t: &str) -> (r: String)
    ensures
        r@ == unexpected_argument(t@),
{
    let mut r = owned("unexpected argument '");
    push_str(&mut r, t);
    push_str(&mut r, "' found");
    r
}

fn unrecognized_subcommand_exec(t: &str) -> (r: String)
    ensures
        r@ == unrecognized_subcommand(t@),
{
    let mut r = owned("unrecognized subcommand '");
    push_str(&mut r, t);
    push_str(&mut r, "'");
    r
}

fn invalid(m: String) -> (r: Result<Cli, CliError>)
    ensures
        outcome_of(r) == ParseOutcome::Invalid(m@),
{
    Err(CliError::Invalid(m))
}

fn parsed(c: Command) -> (r: Result<Cli, CliError>)
    ensures
        outcome_of(r) == ParseOutcome::Parsed(c),
{
    Ok(Cli { command: c })
}

fn no_more_exec(args: &[&str], at: usize, c: Command) -> (r: Result<Cli, CliError>)
    requires
        at <= args@.len(),
    ensures
        outcome_of(r) == no_more(token_text(args@).skip(at as int), c),
{
    if at == args.len() {
        parsed(c)
    } else {
        invalid(unexpected_argument_exec(args[at]))
    }
}

fn lines_option_exec(args: &[&str], at: usize) -> (r: Result<usize, String>)
    requires
        at <= args@.len(),
    ensures
        match (r, lines_option(token_text(args@).skip(at as int))) {
            (Ok(a), Ok(b)) => a == b,
            (Err(a), Err(b)) => a@ == b,
            _ => false,
        },
{
    let ghost ts = token_text(args@).skip(at as int);
    if at == args.len() {
        return Ok(DEFAULT_LOG_LINES);
    }
    assert(ts[0] == args@[at as int]@);
    if str_eq(args[at], "--lines") {
        if at + 1 == args.len() {
            return Err(owned("a value is required for '--lines <LINES>' but none was supplied"));
        }
        assert(ts[1] == args@[at + 1]@);
        match parse_usize(args[at + 1]) {
            None => {
                let mut m = owned("invalid value '");
                push_str(&mut m, args[at + 1]);
                push_str(&mut m, "' for '--lines <LINES>'");
                Err(m)
            },
            Some(n) => {
                if at + 2 < args.len() {
                    assert(ts[2] == args@[at + 2]@);
                    Err(unexpected_argument_exec(args[at + 2]))
                } else {
                    Ok(n)
                }
            },
        }
    } else if str_starts_with(args[at], "--lines=") {
        let chars = crate::text::chars_of(args[at]);
        let prefix = crate::text::chars_of("--lines=");
        proof {
            reveal_strlit("--lines=");
        }
        assert(prefix@.len() == 8);
        let v = crate::text::string_of_range(&chars, 8, chars.len());
        assert(v@ =~= ts[0].skip(8));
        match parse_usize(v.as_str()) {
            None => {
                let mut m = owned("invalid value '");
                push_str(&mut m, v.as_str());
                push_str(&mut m, "' for '--lines <LINES>'");
                Err(m)
            },
            Some(n) => {
                if at + 1 < args.len() {
                    assert(ts[1] == args@[at + 1]@);
                    Err(unexpected_argument_exec(args[at + 1]))
                } else {
                    Ok(n)
                }
            },
        }
    } else {
        Err(unexpected_argument_exec(args[at]))
    }
}

fn subcommand_missing() -> (r: Result<Cli, CliError>)
    ensures
        outcome_of(r) == ParseOutcome::Invalid(missing_subcommand()),
{
    invalid(owned("a subcommand is required"))
}

fn parse_config_exec(args: &[&str], at: usize) -> (r: Result<Cli, CliError>)
    requires
        at <= args@.len(),
    ensures
        outcome_of(r) == parse_config(token_text(args@).skip(at as int)),
{
    let ghost ts = token_text(args@).skip(at as int);
    if at == args.len() {
        return subcommand_missing();
    }
    assert(ts[0] == args@[at as int]@);
    assert(ts.drop_first() =~= token_text(args@).skip(at + 1));
    if str_eq(args[at], "init") {
        no_more_exec(args, at + 1, Command::Config { command: ConfigCommand::Init })
    } else if str_eq(args[at], "list") {
        no_more_exec(args, at + 1, Command::Config { command: ConfigCommand::List })
    } else {
        invalid(unrecognized_subcommand_exec(args[at]))
    }
}

fn parse_secrets_exec(args: &[&str], at: usize) -> (r: Result<Cli, CliError>)
    requires
        at <= args@.len(),
    ensures
        outcome_of(r) == parse_secrets(token_text(args@).skip(at as int)),
{
    let ghost ts = token_text(args@).skip(at as int);
    if at == args.len() {
        return subcommand_missing();
    }
    assert(ts[0] == args@[at as int]@);
    assert(ts.drop_first() =~= token_text(args@).skip(at + 1));
    if str_eq(args[at], "path") {
        no_more_exec(args, at + 1, Command::Secrets { command: SecretsCommand::Path })
    } else if str_eq(args[at], "check") {
        no_more_exec(args, at + 1, Command::Secrets { command: SecretsCommand::Check })
    } else if str_eq(args[at], "set") {
        let ghost ts2 = token_text(args@).skip(at + 1);
        let set = at + 1;
        if set == args.len() {
            return subcommand_missing();
        }
        assert(ts2[0] == args@[set as int]@);
        assert(ts2.drop_first() =~= token_text(args@).skip(set + 1));
        let c = if str_eq(args[set], "github-token") {
            SecretsSetCommand::GithubToken
        } else if str_eq(args[set], "slack-user-token") {
            SecretsSetCommand::SlackUserToken
        } else if str_eq(args[set], "slack-user-id") {
            SecretsSetCommand::SlackUserId
        } else {
            return invalid(unrecognized_subcommand_exec(args[set]));
        };
        no_more_exec(args, set + 1, Command::Secrets { command: SecretsCommand::SetSecret { command: c } })
    } else {
        invalid(unrecognized_subcommand_exec(args[at]))
    }
}

fn parse_launch_agent_exec(args: &[&str], at: usize) -> (r: Result<Cli, CliError>)
    requires
        at <= args@.len(),
    ensures
        outcome_of(r) == parse_launch_agent(token_text(args@).skip(at as int)),
{
    let ghost ts = token_text(args@).skip(at as int);
    if at == args.len() {
        return subcommand_missing();
    }
    assert(ts[0] == args@[at as int]@);
    assert(ts.drop_first() =~= token_text(args@).skip(at + 1));
    let c = if str_eq(args[at], "install") {
        LaunchAgentCommand::Install
    } else if str_eq(args[at], "start") {
        LaunchAgentCommand::Start
    } else if str_eq(args[at], "stop") {
        LaunchAgentCommand::Stop
    } else if str_eq(args[at], "uninstall") {
        LaunchAgentCommand::Uninstall
    } else if str_eq(args[at], "status") {
        LaunchAgentCommand::Status
    } else if str_eq(args[at], "restart") {
        LaunchAgentCommand::Restart
    } else if str_eq(args[at], "logs") {
        return match lines_option_exec(args, at + 1) {
            Ok(n) => parsed(Command::LaunchAgent { command: LaunchAgentCommand::Logs { lines: n } }),
            Err(m) => invalid(m),
        };
    } else {
        return invalid(unrecognized_subcommand_exec(args[at]));
    };
    no_more_exec(args, at + 1, Command::LaunchAgent { command: c })
}

fn parse_mark_read_exec(args: &[&str], at: usize) -> (r: Result<Cli, CliError>)
    requires
        at <= args@.len(),
    ensures
        outcome_of(r) == parse_mark_read(token_text(args@).skip(at as int)),
{
    let ghost ts = token_text(args@).skip(at as int);
    if at == args.len() {
        return invalid(owned("the following required arguments were not provided: <ID>"));
    }
    assert(ts[0] == args@[at as int]@);
    assert(ts.drop_first() =~= token_text(args@).skip(at + 1));
    let n = args[at].unicode_len();
    if n > 1 && args[at].get_char(0) == '-' {
        return invalid(unexpected_argument_exec(args[at]));
    }
    match parse_i64(args[at]) {
        None => {
            let mut m = owned("invalid value '");
            push_str(&mut m, args[at]);
            push_str(&mut m, "' for '<ID>'");
            invalid(m)
        },
        Some(id) => no_more_exec(args, at + 1, Command::MarkRead { id }),
    }
}

fn has_help(args: &[&str]) -> (r: bool)
    requires
        args@.len() >= 1,
    ensures
        r == exists|i: int|
            0 <= i < token_text(args@).skip(1).len() && is_help(
                #[trigger] token_text(args@).skip(1)[i],
            ),
{
    let ghost ts = token_text(args@).skip(1);
    let mut i: usize = 1;
    while i < args.len()
        invariant
            1 <= i <= args@.len(),
            ts == token_text(args@).skip(1),
            forall|j: int| 0 <= j < i - 1 && j < ts.len() ==> !is_help(#[trigger] ts[j]),
        decreases args.len() - i,
    {
        assert(ts[i - 1] == args@[i as int]@);
        if str_eq(args[i], "--help") || str_eq(args[i], "-h") {
            assert(is_help(ts[i - 1]));
            return true;
        }
        i += 1;
    }
    false
}

impl Cli {
    /// Parses the program name and arguments; `Ok` exactly when they form a
    /// command, with the outcome that `parse_tokens` gives.
    pub fn try_parse_from(args: &[&str]) -> (r: Result<Cli, CliError>)
        ensures
            outcome_of(r) == parse_tokens(arguments(args@)),
    {
        if args.len() == 0 {
            return subcommand_missing();
        }
        let ghost ts = token_text(args@).skip(1);
        if has_help(args) {
            return Err(CliError::HelpRequested);
        }
        if args.len() == 1 {
            assert(ts.len() == 0);
            return subcommand_missing();
        }
        assert(ts[0] == args@[1]@);
        assert(ts.drop_first() =~= token_text(args@).skip(2));
        let t = args[1];
        if str_eq(t, "--version") || str_eq(t, "-V") {
            return Err(CliError::VersionRequested);
        }
        if str_eq(t, "daemon") {
            if args.len() == 2 {
                return parsed(Command::Daemon { foreground: false });
            }
            assert(ts[1] == args@[2]@);
            assert(ts.drop_first().drop_first() =~= token_text(args@).skip(3));
            if str_eq(args[2], "--foreground") {
                no_more_exec(args, 3, Command::Daemon { foreground: true })
            } else {
                invalid(unexpected_argument_exec(args[2]))
            }
        } else if str_eq(t, "config") {
            parse_config_exec(args, 2)
        } else if str_eq(t, "secrets") {
            parse_secrets_exec(args, 2)
        } else if str_eq(t, "tui") {
            no_more_exec(args, 2, Command::Tui)
        } else if str_eq(t, "status") {
            no_more_exec(args, 2, Command::Status)
        } else if str_eq(t, "doctor") {
            no_more_exec(args, 2, Command::Doctor)
        } else if str_eq(t, "sources") {
            no_more_exec(args, 2, Command::Sources)
        } else if str_eq(t, "mark-read") {
            parse_mark_read_exec(args, 2)
        } else if str_eq(t, "log") {
            match lines_option_exec(args, 2) {
                Ok(n) => parsed(Command::Log { lines: n }),
                Err(m) => invalid(m),
            }
        } else if str_eq(t, "launch-agent") {
            parse_launch_agent_exec(args, 2)
        } else {
            invalid(unrecognized_subcommand_exec(t))
        }
    }
}

// ---------------------------------------------------------------------------
// Output of the commands
// ---------------------------------------------------------------------------

/// `KEY=present` or `KEY=missing` for each secret, in order.
pub open spec fn secrets_check_text(secrets: Secrets) -> Seq<char> {
    secrets_check_lines(secrets, all_keys_spec())
}

pub open spec fn secrets_check_lines(secrets: Secrets, keys: Seq<SecretKey>) -> Seq<char>
    decreases keys.len(),
{
    if keys.len() == 0 {
        seq![]
    } else {
        secrets_check_lines(secrets, keys.drop_last()) + env_name_spec(keys.last()) + seq!['=']
            + (if secrets.spec_value_for(keys.last()) is Some {
            "present"@
        } else {
            "missing"@
        }) + seq!['\n']
    }
}

proof fn lemma_check_lines_presence(a: Secrets, b: Secrets, keys: Seq<SecretKey>)
    requires
        forall|i: int|
            0 <= i < keys.len() ==> (a.spec_value_for(#[trigger] keys[i]) is Some
                <==> b.spec_value_for(keys[i]) is Some),
    ensures
        secrets_check_lines(a, keys) == secrets_check_lines(b, keys),
    decreases keys.len(),
{
    if keys.len() > 0 {
        assert(keys.last() == keys[keys.len() - 1]);
        lemma_check_lines_presence(a, b, keys.drop_last());
    }
}

/// `secrets check` shows only which secrets are present: two sets of secrets
/// with the same ones present print the same text, whatever their values.
pub proof fn lemma_secrets_check_shows_presence_only(a: Secrets, b: Secrets)
    requires
        (a.github_token is Some) == (b.github_token is Some),
        (a.slack_user_token is Some) == (b.slack_user_token is Some),
        (a.slack_user_id is Some) == (b.slack_user_id is Some),
    ensures
        secrets_check_text(a) == secrets_check_text(b),
{
    lemma_check_lines_presence(a, b, all_keys_spec());
}

/// Whether each secret is present, without its value.
pub fn format_secrets_check(secrets: &Secrets) -> (r: String)
    ensures
        r@ == secrets_check_text(*secrets),
{
    let keys = SecretKey::all();
    let mut output = String::new();
    let mut i: usize = 0;
    while i < keys.len()
        invariant
            i <= keys.len(),
            keys@ == all_keys_spec(),
            output@ == secrets_check_lines(*secrets, keys@.take(i as int)),
        decreases keys.len() - i,
    {
        let key = keys[i];
        assert(keys@.take(i + 1).drop_last() =~= keys@.take(i as int));
        push_str(&mut output, key.env_name());
        push_char(&mut output, '=');
        push_str(
            &mut output,
            if secrets.value_for(key).is_some() {
                "present"
            } else {
                "missing"
            },
        );
        push_char(&mut output, '\n');
        i += 1;
    }
    assert(keys@.take(keys.len() as int) =~= keys@);
    output
}

/// One `warning=` line per warning, sanitized.
pub open spec fn warning_lines(ws: Seq<Seq<char>>) -> Seq<char>
    decreases ws.len(),
{
    if ws.len() == 0 {
        seq![]
    } else {
        warning_lines(ws.drop_last()) + "warning="@ + sanitize(ws.last()) + seq!['\n']
    }
}

/// The `launch-agent` report.
pub open spec fn launch_agent_status_text(s: LaunchAgentStatus) -> Seq<char> {
    "label="@ + s.label@ + seq!['\n'] + "loaded="@ + (if s.loaded {
        "true"@
    } else {
        "false"@
    }) + seq!['\n'] + "daemon_ipc="@ + ipc_status_text(s.daemon_ipc) + seq!['\n']
        + "socket_path="@ + s.socket_path@ + seq!['\n'] + "log_path="@ + s.log_path@ + seq!['\n']
        + "plist_path="@ + s.plist_path@ + seq!['\n'] + "binary_path="@ + s.binary_path@ + seq![
        '\n',
    ] + warning_lines(s.warnings.deep_view())
}

fn push_line(output: &mut String, key: &str, value: &str)
    ensures
        final(output)@ == old(output)@ + key@ + value@ + seq!['\n'],
{
    push_str(output, key);
    push_str(output, value);
    push_char(output, '\n');
}

/// The `launch-agent` report: one `key=value` line per field, then the warnings.
pub fn format_launch_agent_status(status: &LaunchAgentStatus) -> (r: String)
    ensures
        r@ == launch_agent_status_text(*status),
{
    let mut output = String::new();
    push_line(&mut output, "label=", status.label.as_str());
    push_line(
        &mut output,
        "loaded=",
        if status.loaded {
            "true"
        } else {
            "false"
        },
    );
    push_line(&mut output, "daemon_ipc=", status.daemon_ipc.as_str());
    push_line(&mut output, "socket_path=", status.socket_path.as_str());
    push_line(&mut output, "log_path=", status.log_path.as_str());
    push_line(&mut output, "plist_path=", status.plist_path.as_str());
    push_line(&mut output, "binary_path=", status.binary_path.as_str());
    let ghost head = output@;
    let mut i: usize = 0;
    while i < status.warnings.len()
        invariant
            i <= status.warnings.len(),
            output@ == head + warning_lines(status.warnings.deep_view().take(i as int)),
        decreases status.warnings.len() - i,
    {
        assert(status.warnings.deep_view().take(i + 1).drop_last() =~= status.warnings.deep_view().take(
            i as int,
        ));
        let w = sanitize_cli_value(status.warnings[i].as_str());
        push_line(&mut output, "warning=", w.as_str());
        i += 1;
    }
    assert(status.warnings.deep_view().take(status.warnings.len() as int)
        =~= status.warnings.deep_view());
    output
}

/// The `log` output: the path, whether the file exists, then the tail.
pub open spec fn log_tail_text(logs: LogTail) -> Seq<char> {
    "log_path="@ + logs.log_path@ + seq!['\n'] + "log_exists="@ + (if logs.exists {
        "true"@
    } else {
        "false"@
    }) + seq!['\n'] + logs.content@
}

/// The `log` output: the path, whether the file exists, then the tail.
pub fn format_log_tail(logs: &LogTail) -> (r: String)
    ensures
        r@ == log_tail_text(*logs),
{
    let mut output = String::new();
    push_line(&mut output, "log_path=", logs.log_path.as_str());
    push_line(
        &mut output,
        "log_exists=",
        if logs.exists {
            "true"
        } else {
            "false"
        },
    );
    push_str(&mut output, logs.content.as_str());
    output
}

/// An optional value on one line, `-` when absent.
pub open spec fn optional_text(v: Option<Seq<char>>) -> Seq<char> {
    match v {
        Some(s) => sanitize(s),
        None => "-"@,
    }
}

/// An optional value on one line, `-` when absent.
pub fn format_optional_text(value: Option<&str>) -> (r: String)
    ensures
        r@ == optional_text(
            match value {
                Some(s) => Some(s@),
                None => None,
            },
        ),
{
    match value {
        Some(s) => sanitize_cli_value(s),
        None => owned("-"),
    }
}

/// A time in RFC 3339, `-` when absent or out of `chrono`'s range.
pub open spec fn dt_text(v: Option<UtcTime>) -> Seq<char> {
    match v {
        Some(t) => match rfc3339_of(t.secs, t.nanos) {
            Some(s) => s,
            None => "-"@,
        },
        None => "-"@,
    }
}

/// A time in RFC 3339, `-` when absent.
pub fn format_dt(value: Option<UtcTime>) -> (r: String)
    ensures
        r@ == dt_text(value),
{
    match value {
        Some(t) => match t.to_rfc3339() {
            Some(s) => s,
            None => owned("-"),
        },
        None => owned("-"),
    }
}

fn opt_str(v: &Option<String>) -> (r: Option<&str>)
    ensures
        match r {
            Some(s) => *v is Some && s@ == v->Some_0@,
            None => *v is None,
        },
{
    match v {
        Some(s) => Some(s.as_str()),
        None => None,
    }
}

/// The first line of `signalpane status`.
pub open spec fn status_header_text(unread: i64, total: i64) -> Seq<char> {
    "unread="@ + signed_decimal(unread as int) + " total="@ + signed_decimal(total as int)
}

/// The first line of `signalpane status`.
pub fn format_status_header(unread: i64, total: i64) -> (r: String)
    ensures
        r@ == status_header_text(unread, total),
{
    let mut r = owned("unread=");
    push_i64(&mut r, unread);
    push_str(&mut r, " total=");
    push_i64(&mut r, total);
    r
}

/// The tab-separated health line of one source; `with_cursor` adds the
/// cursor value, as `signalpane sources` shows it.
pub open spec fn source_line_text(s: SourceStatus, with_cursor: bool) -> Seq<char> {
    s.source@ + seq!['\t'] + s.label@ + "\tenabled="@ + (if s.enabled {
        "true"@
    } else {
        "false"@
    }) + "\tunread="@ + signed_decimal(s.unread_count as int) + "\tcursor_key="@ + optional_text(
        opt_view(s.cursor_key),
    ) + (if with_cursor {
        "\tcursor="@ + optional_text(opt_view(s.last_cursor))
    } else {
        seq![]
    }) + "\tpoll_after="@ + dt_text(s.poll_after) + "\tlast_success="@ + dt_text(
        s.last_success_at,
    ) + "\tlast_error_at="@ + dt_text(s.last_error_at) + "\tlast_error="@ + optional_text(
        opt_view(s.last_error),
    ) + "\tfailures="@ + decimal(s.consecutive_failures as nat)
}

/// The tab-separated health line of one source.
pub fn format_source_line(s: &SourceStatus, with_cursor: bool) -> (r: String)
    ensures
        r@ == source_line_text(*s, with_cursor),
{
    let mut r = s.source.clone();
    push_char(&mut r, '\t');
    push_str(&mut r, s.label.as_str());
    push_str(&mut r, "\tenabled=");
    push_str(
        &mut r,
        if s.enabled {
            "true"
        } else {
            "false"
        },
    );
    push_str(&mut r, "\tunread=");
    push_i64(&mut r, s.unread_count);
    push_str(&mut r, "\tcursor_key=");
    let ck = format_optional_text(opt_str(&s.cursor_key));
    push_str(&mut r, ck.as_str());
    if with_cursor {
        push_str(&mut r, "\tcursor=");
        let c = format_optional_text(opt_str(&s.last_cursor));
        push_str(&mut r, c.as_str());
    }
    push_str(&mut r, "\tpoll_after=");
    let p = format_dt(s.poll_after);
    push_str(&mut r, p.as_str());
    push_str(&mut r, "\tlast_success=");
    let ls = format_dt(s.last_success_at);
    push_str(&mut r, ls.as_str());
    push_str(&mut r, "\tlast_error_at=");
    let le = format_dt(s.last_error_at);
    push_str(&mut r, le.as_str());
    push_str(&mut r, "\tlast_error=");
    let e = format_optional_text(opt_str(&s.last_error));
    push_str(&mut r, e.as_str());
    push_str(&mut r, "\tfailures=");
    push_u64(&mut r, s.consecutive_failures as u64);
    r
}

proof fn lemma_number_is_not_help(v: Seq<char>)
    requires
        usize_value(v) is Some,
    ensures
        !is_help(v),
        v.len() > 0 && v[0] != '-',
{
    reveal_strlit("--help");
    reveal_strlit("-h");
    if is_help(v) {
        assert(v[0] == '-');
    }
}

proof fn lemma_not_help(t: Seq<char>)
    requires
        t.len() > 0,
        t[0] != '-' || (t.len() != 2 && t.len() != 6),
    ensures
        !is_help(t),
{
    reveal_strlit("--help");
    reveal_strlit("-h");
    if is_help(t) {
        assert(t[0] == '-');
    }
}

proof fn lemma_no_help(ts: Seq<Seq<char>>)
    requires
        forall|i: int|
            0 <= i < ts.len() ==> (#[trigger] ts[i]).len() > 0 && (ts[i][0] != '-' || (
            ts[i].len() != 2 && ts[i].len() != 6)),
    ensures
        !exists|i: int| 0 <= i < ts.len() && is_help(#[trigger] ts[i]),
{
    assert forall|i: int| 0 <= i < ts.len() implies !is_help(#[trigger] ts[i]) by {
        lemma_not_help(ts[i]);
    }
}

proof fn lemma_command_words()
    ensures
        "log"@.len() == 3 && "log"@[0] == 'l',
        "logs"@.len() == 4 && "logs"@[0] == 'l',
        "launch-agent"@.len() == 12 && "launch-agent"@[0] == 'l',
        "--lines"@.len() == 7,
        "--lines="@.len() == 8,
        "--lines="@.take(7) == "--lines"@,
        "log"@ != "--version"@ && "log"@ != "-V"@ && "log"@ != "daemon"@ && "log"@ != "config"@
            && "log"@ != "secrets"@ && "log"@ != "tui"@ && "log"@ != "status"@ && "log"@
            != "doctor"@ && "log"@ != "sources"@ && "log"@ != "mark-read"@,
        "launch-agent"@ != "--version"@ && "launch-agent"@ != "-V"@ && "launch-agent"@
            != "daemon"@ && "launch-agent"@ != "config"@ && "launch-agent"@ != "secrets"@
            && "launch-agent"@ != "tui"@ && "launch-agent"@ != "status"@ && "launch-agent"@
            != "doctor"@ && "launch-agent"@ != "sources"@ && "launch-agent"@ != "mark-read"@
            && "launch-agent"@ != "log"@,
        "logs"@ != "install"@ && "logs"@ != "start"@ && "logs"@ != "stop"@ && "logs"@
            != "uninstall"@ && "logs"@ != "status"@ && "logs"@ != "restart"@,
{
    reveal_strlit("log");
    reveal_strlit("logs");
    reveal_strlit("launch-agent");
    reveal_strlit("--lines");
    reveal_strlit("--lines=");
    reveal_strlit("--version");
    reveal_strlit("-V");
    reveal_strlit("daemon");
    reveal_strlit("config");
    reveal_strlit("secrets");
    reveal_strlit("tui");
    reveal_strlit("status");
    reveal_strlit("doctor");
    reveal_strlit("sources");
    reveal_strlit("mark-read");
    reveal_strlit("install");
    reveal_strlit("start");
    reveal_strlit("stop");
    reveal_strlit("uninstall");
    reveal_strlit("restart");
    assert("--lines="@.take(7) =~= "--lines"@);
    assert("log"@[1] != "tui"@[1]);
}

/// `--lines=N` is `--lines` followed by `N`.
proof fn lemma_lines_option_joined(v: Seq<char>)
    requires
        usize_value(v) is Some,
    ensures
        lines_option(seq!["--lines"@, v]) == Ok::<usize, Seq<char>>(usize_value(v)->Some_0),
        lines_option(seq!["--lines="@ + v]) == Ok::<usize, Seq<char>>(usize_value(v)->Some_0),
        lines_option(Seq::<Seq<char>>::empty()) == Ok::<usize, Seq<char>>(DEFAULT_LOG_LINES),
{
    lemma_command_words();
    let eq = "--lines="@ + v;
    assert(eq.take(8) =~= "--lines="@);
    assert(eq.skip(8) =~= v);
    assert(eq.len() != "--lines"@.len()) by {
        assert(v.len() > 0) by {
            lemma_number_is_not_help(v);
        }
    }
    assert(starts_with(eq, "--lines="@));
}

/// `--lines N` and `--lines=N` mean the same: for every `N` that is a number,
/// `log` with either form shows `N` lines, and so does `launch-agent logs`;
/// without the option `log` shows 100.
pub proof fn lemma_lines_option_forms(v: Seq<char>)
    requires
        usize_value(v) is Some,
    ensures
        parse_tokens(seq!["log"@, "--lines"@, v]) == ParseOutcome::Parsed(
            Command::Log { lines: usize_value(v)->Some_0 },
        ),
        parse_tokens(seq!["log"@, "--lines="@ + v]) == ParseOutcome::Parsed(
            Command::Log { lines: usize_value(v)->Some_0 },
        ),
        parse_tokens(seq!["launch-agent"@, "logs"@, "--lines="@ + v]) == ParseOutcome::Parsed(
            Command::LaunchAgent { command: LaunchAgentCommand::Logs { lines: usize_value(v)->Some_0 } },
        ),
        parse_tokens(seq!["launch-agent"@, "logs"@, "--lines"@, v]) == ParseOutcome::Parsed(
            Command::LaunchAgent { command: LaunchAgentCommand::Logs { lines: usize_value(v)->Some_0 } },
        ),
        parse_tokens(seq!["log"@]) == ParseOutcome::Parsed(Command::Log { lines: 100 }),
{
    lemma_log_forms(v);
    lemma_logs_forms(v);
}

proof fn lemma_log_forms(v: Seq<char>)
    requires
        usize_value(v) is Some,
    ensures
        parse_tokens(seq!["log"@, "--lines"@, v]) == ParseOutcome::Parsed(
            Command::Log { lines: usize_value(v)->Some_0 },
        ),
        parse_tokens(seq!["log"@, "--lines="@ + v]) == ParseOutcome::Parsed(
            Command::Log { lines: usize_value(v)->Some_0 },
        ),
        parse_tokens(seq!["log"@]) == ParseOutcome::Parsed(Command::Log { lines: 100 }),
{
    lemma_number_is_not_help(v);
    lemma_command_words();
    lemma_lines_option_joined(v);
    let eq = "--lines="@ + v;
    assert(eq[0] == "--lines="@[0]);
    assert(eq.len() > 8);
    let t1 = seq!["log"@, "--lines"@, v];
    lemma_no_help(t1);
    assert(t1.drop_first() =~= seq!["--lines"@, v]);
    let t2 = seq!["log"@, eq];
    lemma_no_help(t2);
    assert(t2.drop_first() =~= seq![eq]);
    let t5 = seq!["log"@];
    lemma_no_help(t5);
    assert(t5.drop_first() =~= Seq::<Seq<char>>::empty());
}

proof fn lemma_logs_forms(v: Seq<char>)
    requires
        usize_value(v) is Some,
    ensures
        parse_tokens(seq!["launch-agent"@, "logs"@, "--lines="@ + v]) == ParseOutcome::Parsed(
            Command::LaunchAgent { command: LaunchAgentCommand::Logs { lines: usize_value(v)->Some_0 } },
        ),
        parse_tokens(seq!["launch-agent"@, "logs"@, "--lines"@, v]) == ParseOutcome::Parsed(
            Command::LaunchAgent { command: LaunchAgentCommand::Logs { lines: usize_value(v)->Some_0 } },
        ),
{
    lemma_number_is_not_help(v);
    lemma_command_words();
    lemma_lines_option_joined(v);
    let eq = "--lines="@ + v;
    assert(eq.len() > 8);
    let t3 = seq!["launch-agent"@, "logs"@, eq];
    lemma_no_help(t3);
    assert(t3.drop_first() =~= seq!["logs"@, eq]);
    assert(t3.drop_first().drop_first() =~= seq![eq]);
    let t4 = seq!["launch-agent"@, "logs"@, "--lines"@, v];
    lemma_no_help(t4);
    assert(t4.drop_first() =~= seq!["logs"@, "--lines"@, v]);
    assert(t4.drop_first().drop_first() =~= seq!["--lines"@, v]);
}

} // verus!
