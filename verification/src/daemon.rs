//! The decisions of the daemon's collector loop: which collectors run, when a
//! cursor may be polled again, how failures back off, and what is recorded.
use vstd::prelude::*;
use vstd::string::*;

use crate::config::{Config, Secrets};
use crate::logging::{redact_all, LogCapOutcome, SecretRedactor};
use crate::text::{chars_of, decimal, is_whitespace, is_ws, owned, push_char, push_str, push_u64};
use crate::time::UtcTime;

verus! {

/// Seconds the collector loop sleeps between rounds.
pub const COLLECTOR_LOOP_SECONDS: u64 = 30;

/// Backoff after the first failure.
pub const FAILURE_BACKOFF_INITIAL_SECONDS: i64 = 60;

/// Longest backoff after failures.
pub const FAILURE_BACKOFF_MAX_SECONDS: i64 = 900;

/// Longest error message kept, in characters.
pub const MAX_ERROR_CHARS: usize = 512;

/// The backoff after `n` consecutive failures: 60 seconds after the first,
/// doubling with each further failure, never more than 15 minutes.
pub open spec fn backoff_spec(n: u32) -> int
    decreases n,
{
    if n <= 1 {
        60
    } else {
        let d = 2 * backoff_spec((n - 1) as u32);
        if d < 900 {
            d
        } else {
            900
        }
    }
}

/// The backoff in seconds after `consecutive_failures` failures in a row.
pub fn failure_backoff_seconds(consecutive_failures: u32) -> (r: i64)
    ensures
        r == backoff_spec(consecutive_failures),
{
    let mut seconds: i64 = FAILURE_BACKOFF_INITIAL_SECONDS;
    let mut k: u32 = 1;
    while k < consecutive_failures
        invariant
            1 <= k,
            k <= consecutive_failures || k == 1,
            seconds == backoff_spec(k),
            60 <= seconds <= 900,
        decreases consecutive_failures - k,
    {
        let d = 2 * seconds;
        seconds = if d < FAILURE_BACKOFF_MAX_SECONDS {
            d
        } else {
            FAILURE_BACKOFF_MAX_SECONDS
        };
        k += 1;
        assert(backoff_spec(k) == (if 2 * backoff_spec((k - 1) as u32) < 900 {
            2 * backoff_spec((k - 1) as u32)
        } else {
            900
        }));
    }
    assert(consecutive_failures <= 1 ==> backoff_spec(consecutive_failures) == 60);
    assert(consecutive_failures > 1 ==> k == consecutive_failures);
    seconds
}

/// The backoff grows with the number of failures and stays between one and
/// fifteen minutes.
pub proof fn lemma_backoff_monotone_and_capped(a: u32, b: u32)
    requires
        a <= b,
    ensures
        60 <= backoff_spec(a) <= backoff_spec(b) <= 900,
    decreases b,
{
    if b > a {
        lemma_backoff_monotone_and_capped(a, (b - 1) as u32);
        lemma_backoff_bounds((b - 1) as u32);
    } else {
        lemma_backoff_bounds(a);
    }
}

/// The backoff is one minute after the first failure, then two, four and
/// eight minutes, and fifteen minutes from the fifth failure on; each further
/// failure doubles it up to that cap.
pub proof fn lemma_backoff_values(n: u32)
    ensures
        n <= 1 ==> backoff_spec(n) == 60,
        n == 2 ==> backoff_spec(n) == 120,
        n == 3 ==> backoff_spec(n) == 240,
        n == 4 ==> backoff_spec(n) == 480,
        n >= 5 ==> backoff_spec(n) == 900,
        1 <= n < u32::MAX ==> backoff_spec((n + 1) as u32) == (if 2 * backoff_spec(n) < 900 {
            2 * backoff_spec(n)
        } else {
            900
        }),
    decreases n,
{
    if n > 1 {
        lemma_backoff_values((n - 1) as u32);
    }
    if n >= 1 && n < u32::MAX {
        assert(backoff_spec((n + 1) as u32) == (if 2 * backoff_spec(n) < 900 {
            2 * backoff_spec(n)
        } else {
            900
        }));
    }
}

proof fn lemma_backoff_bounds(n: u32)
    ensures
        60 <= backoff_spec(n) <= 900,
    decreases n,
{
    if n > 1 {
        lemma_backoff_bounds((n - 1) as u32);
    }
}

/// A cursor is skipped while its `poll_after` lies in the future.
pub open spec fn skip_poll(poll_after: Option<UtcTime>, now: UtcTime) -> bool {
    match poll_after {
        Some(p) => p.later_than(now),
        None => false,
    }
}

/// A cursor is skipped while its `poll_after` lies in the future.
pub fn should_skip_poll(poll_after: Option<UtcTime>, now: UtcTime) -> (r: bool)
    ensures
        r == skip_poll(poll_after, now),
{
    match poll_after {
        Some(p) => p.is_after(&now),
        None => false,
    }
}

/// `s` with every run of whitespace turned into one space and none at either
/// end: `pending` records whitespace seen after some text.
pub open spec fn squeeze(s: Seq<char>, pending: bool, started: bool) -> Seq<char>
    decreases s.len(),
{
    if s.len() == 0 {
        seq![]
    } else if is_ws(s[0]) {
        squeeze(s.drop_first(), started, started)
    } else {
        (if pending {
            seq![' ']
        } else {
            seq![]
        }) + seq![s[0]] + squeeze(s.drop_first(), false, true)
    }
}

/// An error message on one line of at most 512 characters: whitespace runs
/// become single spaces, and a longer message keeps its first 509 characters
/// followed by `...`.
pub open spec fn compact_spec(message: Seq<char>) -> Seq<char> {
    let c = squeeze(message, false, false);
    if c.len() <= 512 {
        c
    } else {
        c.take(509) + "..."@
    }
}

/// Puts an error message on one line of at most 512 characters.
pub fn compact_error_message(message: &str) -> (r: String)
    ensures
        r@ == compact_spec(message@),
{
    let v = chars_of(message);
    let mut out: Vec<char> = Vec::new();
    let mut pending = false;
    let mut started = false;
    let mut i: usize = 0;
    assert(v@.skip(0) =~= v@);
    while i < v.len()
        invariant
            i <= v.len(),
            v@ == message@,
            out@ + squeeze(v@.skip(i as int), pending, started) == squeeze(v@, false, false),
            pending ==> started,
        decreases v.len() - i,
    {
        let ghost rest = v@.skip(i as int);
        let ghost out0 = out@;
        assert(rest[0] == v@[i as int]);
        assert(rest.drop_first() =~= v@.skip(i + 1));
        if is_whitespace(v[i]) {
            pending = started;
        } else {
            if pending {
                out.push(' ');
            }
            out.push(v[i]);
            assert(out0 + ((if pending {
                seq![' ']
            } else {
                seq![]
            }) + seq![v@[i as int]] + squeeze(v@.skip(i + 1), false, true)) =~= out@
                + squeeze(v@.skip(i + 1), false, true));
            pending = false;
            started = true;
        }
        i += 1;
    }
    assert(v@.skip(v.len() as int).len() == 0);
    assert(out@ + squeeze(v@.skip(i as int), pending, started) =~= out@);
    if out.len() <= MAX_ERROR_CHARS {
        return crate::text::string_of(&out);
    }
    let mut r = crate::text::string_of_range(&out, 0, 509);
    push_str(&mut r, "...");
    assert(out@.subrange(0, 509) =~= out@.take(509));
    r
}

/// The error recorded for a failed collection: compacted, then redacted.
pub fn collector_error_text(message: &str, redactor: &SecretRedactor) -> (r: String)
    requires
        redactor.wf(),
    ensures
        r@ == redact_all(compact_spec(message@), redactor.values()),
{
    let compact = compact_error_message(message);
    redactor.redact(compact.as_str())
}

/// The cursor key of a Slack conversation.
pub open spec fn slack_cursor_key_spec(channel: Seq<char>) -> Seq<char> {
    "channel:"@ + channel
}

/// The cursor key of a Slack conversation.
pub fn slack_cursor_key(channel: &str) -> (r: String)
    ensures
        r@ == slack_cursor_key_spec(channel@),
{
    let mut r = owned("channel:");
    push_str(&mut r, channel);
    r
}

/// The cursor key of the GitHub notifications feed.
pub fn github_cursor_key() -> (r: &'static str)
    ensures
        r@ == "notifications"@,
{
    "notifications"
}

/// The GitHub collector runs when it is enabled and has a token.
pub open spec fn github_runs(config: Config, secrets: Secrets) -> bool {
    config.github.enabled && secrets.github_token is Some
}

/// The Slack account exists when Slack is enabled and has a user token.
pub open spec fn slack_account_wanted(config: Config, secrets: Secrets) -> bool {
    config.slack.enabled && secrets.slack_user_token is Some
}

/// The Slack collector runs when it is enabled, has a user token, and has
/// conversations to read.
pub open spec fn slack_runs(config: Config, secrets: Secrets) -> bool {
    slack_account_wanted(config, secrets) && config.slack.channels@.len() > 0
}

/// Which accounts the daemon registers at startup: GitHub, Slack.
pub fn accounts_to_bootstrap(config: &Config, secrets: &Secrets) -> (r: (bool, bool))
    ensures
        r == (github_runs(*config, *secrets), slack_account_wanted(*config, *secrets)),
{
    (
        config.github.enabled && secrets.github_token.is_some(),
        config.slack.enabled && secrets.slack_user_token.is_some(),
    )
}

/// Which collectors run in a round: GitHub, Slack.
pub fn collectors_to_run(config: &Config, secrets: &Secrets) -> (r: (bool, bool))
    ensures
        r == (github_runs(*config, *secrets), slack_runs(*config, *secrets)),
{
    (
        config.github.enabled && secrets.github_token.is_some(),
        config.slack.enabled && secrets.slack_user_token.is_some() && config.slack.channels.len()
            > 0,
    )
}

/// The time `now` plus `seconds`, when it stays in range.
pub open spec fn shifted(now: UtcTime, seconds: int) -> UtcTime {
    UtcTime { secs: (now.secs + seconds) as i64, nanos: now.nanos }
}

/// An interval in seconds read as a signed number of seconds, two's
/// complement, as a cast to `i64` reads it: from 2^63 on it wraps below zero.
pub open spec fn as_i64_wrapped(seconds: u64) -> int {
    if seconds <= i64::MAX {
        seconds as int
    } else {
        seconds - 0x1_0000_0000_0000_0000
    }
}

/// What a successful collection records on its cursor: the cursor value it
/// reports (else the one it started from), and the time it names for the next
/// poll (else `now` plus the configured interval).
pub fn success_cursor_update(
    cursor_value: Option<String>,
    poll_after: Option<UtcTime>,
    fallback_cursor: Option<String>,
    poll_interval_seconds: u64,
    now: UtcTime,
) -> (r: (Option<String>, UtcTime))
    requires
        poll_after is None ==> -(i64::MAX / 1000) <= as_i64_wrapped(poll_interval_seconds) <= i64::MAX
            / 1000,
        poll_after is None ==> i64::MIN <= now.secs + as_i64_wrapped(poll_interval_seconds)
            <= i64::MAX,
    ensures
        r.0 == (match cursor_value {
            Some(v) => Some(v),
            None => fallback_cursor,
        }),
        r.1 == (match poll_after {
            Some(p) => p,
            None => shifted(now, as_i64_wrapped(poll_interval_seconds)),
        }),
{
    let c = match cursor_value {
        Some(v) => Some(v),
        None => fallback_cursor,
    };
    let p = match poll_after {
        Some(p) => p,
        None => {
            let delta: i64 = if poll_interval_seconds <= 9223372036854775807u64 {
                poll_interval_seconds as i64
            } else {
                -((u64::MAX - poll_interval_seconds) as i64) - 1
            };
            UtcTime { secs: now.secs + delta, nanos: now.nanos }
        },
    };
    (c, p)
}

/// The number of consecutive failures after one more: one more than before
/// (saturating), and at least one.
pub open spec fn next_failure_count(previous: Option<u32>) -> u32 {
    match previous {
        Some(c) => if c == u32::MAX {
            u32::MAX
        } else if c + 1 < 1 {
            1
        } else {
            (c + 1) as u32
        },
        None => 1,
    }
}

/// What a failed collection records: the failure count and when the cursor
/// may be polled again.
pub fn failure_update(previous_failures: Option<u32>, now: UtcTime) -> (r: (u32, UtcTime))
    requires
        now.secs + 900 <= i64::MAX,
    ensures
        r.0 == next_failure_count(previous_failures),
        r.0 >= 1,
        r.1 == shifted(now, backoff_spec(r.0)),
{
    let count = match previous_failures {
        Some(c) => c.saturating_add(1),
        None => 1,
    };
    let count = if count < 1 {
        1
    } else {
        count
    };
    proof {
        lemma_backoff_bounds(count);
    }
    let seconds = failure_backoff_seconds(count);
    (count, UtcTime { secs: now.secs + seconds, nanos: now.nanos })
}

/// The log line for a failed collection.
pub open spec fn failure_log_spec(
    source: Seq<char>,
    cursor_key: Seq<char>,
    failures: u32,
    error: Seq<char>,
) -> Seq<char> {
    source + seq!['/'] + cursor_key + " collector error failures="@ + decimal(failures as nat)
        + ": "@ + error
}

/// The log line for a failed collection.
pub fn failure_log_message(source: &str, cursor_key: &str, failures: u32, error: &str) -> (r:
    String)
    ensures
        r@ == failure_log_spec(source@, cursor_key@, failures, error@),
{
    let mut r = owned(source);
    push_char(&mut r, '/');
    push_str(&mut r, cursor_key);
    push_str(&mut r, " collector error failures=");
    push_u64(&mut r, failures as u64);
    push_str(&mut r, ": ");
    push_str(&mut r, error);
    r
}


/// What to do with the socket path before binding it.
#[derive(Debug, Clone, PartialEq, Eq)]
pub enum SocketPreparation {
    /// Nothing is there: bind.
    Ready,
    /// A daemon answers there: stop with this error.
    AlreadyRunning(String),
    /// A socket is left over from a daemon that is gone: remove it, then bind.
    RemoveStale,
}

/// The error when another daemon answers on the socket.
pub open spec fn already_running_message(socket: Seq<char>) -> Seq<char> {
    "signalpane daemon already running at "@ + socket
}

/// Decides about the socket path: free, owned by a live daemon, or stale.
pub fn socket_preparation(socket_path: &str, exists: bool, answers: bool) -> (r:
    SocketPreparation)
    ensures
        !exists ==> r == SocketPreparation::Ready,
        exists && answers ==> (r matches SocketPreparation::AlreadyRunning(m) && m@
            == already_running_message(socket_path@)),
        exists && !answers ==> r == SocketPreparation::RemoveStale,
{
    if !exists {
        return SocketPreparation::Ready;
    }
    if answers {
        let mut m = owned("signalpane daemon already running at ");
        push_str(&mut m, socket_path);
        return SocketPreparation::AlreadyRunning(m);
    }
    SocketPreparation::RemoveStale
}

/// The log line written when the daemon log was cut at startup.
pub open spec fn cap_log_spec(original: u64, retained: u64) -> Seq<char> {
    "daemon log capped original_bytes="@ + decimal(original as nat) + " retained_bytes="@
        + decimal(retained as nat)
}

/// The line to log after capping the daemon log at startup: one only when the
/// log was cut.
pub fn cap_log_message(outcome: LogCapOutcome) -> (r: Option<String>)
    ensures
        match outcome {
            LogCapOutcome::Capped { original_bytes, retained_bytes } => r is Some && r->Some_0@
                == cap_log_spec(original_bytes, retained_bytes),
            _ => r is None,
        },
{
    match outcome {
        LogCapOutcome::Capped { original_bytes, retained_bytes } => {
            let mut m = owned("daemon log capped original_bytes=");
            push_u64(&mut m, original_bytes);
            push_str(&mut m, " retained_bytes=");
            push_u64(&mut m, retained_bytes);
            Some(m)
        },
        _ => None,
    }
}


/// One cursor that a collector round polls.
#[derive(Debug, Clone, PartialEq, Eq)]
pub enum CollectionJob {
    /// The GitHub notifications feed.
    Github,
    /// One allowlisted Slack conversation.
    SlackChannel { channel: String },
}

/// The view of a job: `None` for GitHub, the channel for Slack.
pub open spec fn job_view(j: CollectionJob) -> Option<Seq<char>> {
    match j {
        CollectionJob::Github => None,
        CollectionJob::SlackChannel { channel } => Some(channel@),
    }
}

/// The cursors a round polls, in order: the GitHub feed when GitHub runs,
/// then each allowlisted Slack conversation when Slack runs.
pub open spec fn round_jobs(config: Config, secrets: Secrets) -> Seq<Option<Seq<char>>> {
    (if github_runs(config, secrets) {
        seq![None]
    } else {
        seq![]
    }) + (if slack_runs(config, secrets) {
        Seq::new(config.slack.channels@.len(), |i: int| Some(config.slack.channels@[i]@))
    } else {
        seq![]
    })
}

/// The cursors a collector round polls, each on its own: a failure on one is
/// recorded on that cursor and the round goes on with the next.
pub fn collection_jobs(config: &Config, secrets: &Secrets) -> (r: Vec<CollectionJob>)
    ensures
        r@.len() == round_jobs(*config, *secrets).len(),
        forall|i: int| 0 <= i < r@.len() ==> job_view(#[trigger] r@[i]) == round_jobs(
            *config,
            *secrets,
        )[i],
{
    let (github, slack) = collectors_to_run(config, secrets);
    let mut jobs: Vec<CollectionJob> = Vec::new();
    if github {
        jobs.push(CollectionJob::Github);
    }
    let base = jobs.len();
    if slack {
        let channels = &config.slack.channels;
        let mut i: usize = 0;
        while i < channels.len()
            invariant
                i <= channels@.len(),
                jobs@.len() == base + i,
                base == (if github {
                    1int
                } else {
                    0int
                }),
                github ==> jobs@[0] == CollectionJob::Github,
                forall|k: int|
                    0 <= k < i ==> job_view(#[trigger] jobs@[base + k]) == Some(
                        channels@[k]@,
                    ),
            decreases channels@.len() - i,
        {
            jobs.push(CollectionJob::SlackChannel { channel: channels[i].clone() });
            i += 1;
        }
    }
    proof {
        let rj = round_jobs(*config, *secrets);
        assert forall|i: int| 0 <= i < jobs@.len() implies job_view(#[trigger] jobs@[i])
            == rj[i] by {
            if i >= base {
                assert(jobs@[base + (i - base)] == jobs@[i]);
            }
        }
    }
    jobs
}

/// How one job of a round ended.
#[derive(Debug, Clone, Copy, PartialEq, Eq, Structural)]
pub enum JobOutcome {
    /// The cursor was not due yet and was left alone.
    Skipped,
    /// The collector ran and its events and cursor were stored.
    Collected,
    /// The collector (or storing what it returned) failed, and the failure
    /// was recorded on its cursor.
    CollectorFailed,
    /// The store could not be read or could not record the failure.
    StoreFailed,
}

/// What the round does after a job.
#[derive(Debug, Clone, Copy, PartialEq, Eq, Structural)]
pub enum RoundAction {
    /// Run the job at this index next.
    RunJob(usize),
    /// Every job has run.
    Finished,
    /// Stop the round; its error is logged and the next round starts later.
    Abort,
}

/// The action after job `index` of `job_count` ended with `outcome`: only a
/// store that fails ends the round early; a collector that fails does not.
pub open spec fn round_step_spec(job_count: nat, index: nat, outcome: JobOutcome) -> RoundAction {
    if outcome == JobOutcome::StoreFailed {
        RoundAction::Abort
    } else if index + 1 < job_count {
        RoundAction::RunJob((index + 1) as usize)
    } else {
        RoundAction::Finished
    }
}

/// Decides what the round does after job `index` of `job_count` ended.
pub fn round_step(job_count: usize, index: usize, outcome: JobOutcome) -> (r: RoundAction)
    requires
        index < job_count,
    ensures
        r == round_step_spec(job_count as nat, index as nat, outcome),
{
    if outcome == JobOutcome::StoreFailed {
        RoundAction::Abort
    } else if index + 1 < job_count {
        RoundAction::RunJob(index + 1)
    } else {
        RoundAction::Finished
    }
}

/// How many jobs a round runs from job `from` on, when job `i` ends with
/// `outcomes[i]`.
pub open spec fn jobs_run(job_count: nat, from: nat, outcomes: Seq<JobOutcome>) -> nat
    decreases job_count - from,
{
    if from >= job_count {
        0
    } else {
        match round_step_spec(job_count, from, outcomes[from as int]) {
            RoundAction::RunJob(_) => 1 + jobs_run(job_count, from + 1, outcomes),
            _ => 1,
        }
    }
}

/// A round runs every job, in order, however many collectors fail, as long
/// as the store works; where the store first fails, the round ends after
/// that job.
pub proof fn lemma_failures_do_not_stop_round(job_count: nat, outcomes: Seq<JobOutcome>, from: nat)
    requires
        outcomes.len() == job_count,
        from <= job_count,
    ensures
        (forall|i: int| from <= i < job_count ==> #[trigger] outcomes[i] != JobOutcome::StoreFailed)
            ==> jobs_run(job_count, from, outcomes) == job_count - from,
        forall|k: int|
            from <= k < job_count && #[trigger] outcomes[k] == JobOutcome::StoreFailed && (forall|
                i: int,
            | from <= i < k ==> outcomes[i] != JobOutcome::StoreFailed) ==> jobs_run(
                job_count,
                from,
                outcomes,
            ) == k - from + 1,
    decreases job_count - from,
{
    if from < job_count {
        lemma_failures_do_not_stop_round(job_count, outcomes, from + 1);
    }
}

/// A source that is disabled in the configuration is never polled, whatever
/// secrets are present; an enabled one is polled exactly when its token is
/// there (and, for Slack, some conversation is allowlisted). A job of the
/// round is a Slack conversation exactly when its view names one.
pub proof fn lemma_disabled_sources_never_run(config: Config, secrets: Secrets)
    ensures
        github_runs(config, secrets) <==> (config.github.enabled && secrets.github_token is Some),
        slack_runs(config, secrets) <==> (config.slack.enabled && secrets.slack_user_token is Some
            && config.slack.channels@.len() > 0),
        slack_account_wanted(config, secrets) <==> (config.slack.enabled
            && secrets.slack_user_token is Some),
        !config.slack.enabled ==> forall|i: int|
            0 <= i < round_jobs(config, secrets).len() ==> (#[trigger] round_jobs(config, secrets)[i])
                is None,
        !config.github.enabled ==> forall|i: int|
            0 <= i < round_jobs(config, secrets).len() ==> (#[trigger] round_jobs(config, secrets)[i])
                is Some,
        !config.slack.enabled ==> round_jobs(config, secrets).len() <= 1,
        !config.github.enabled && !config.slack.enabled ==> round_jobs(config, secrets).len() == 0,
        forall|j: CollectionJob| (#[trigger] job_view(j)) is None <==> j is Github,
{
    let rj = round_jobs(config, secrets);
    if !config.github.enabled {
        assert forall|i: int| 0 <= i < rj.len() implies (#[trigger] rj[i]) is Some by {
            if slack_runs(config, secrets) {
                assert(rj[i] == Some(config.slack.channels@[i]@));
            }
        }
    }
}

} // verus!
