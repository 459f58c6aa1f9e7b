//! GitHub: unread notifications that mention the user, the user's team, or
//! ask for the user's review.
use vstd::prelude::*;
use vstd::string::*;

use super::{
    header_seconds_ok, header_time, is_success_code, seconds_after_header, CollectOutcome,
    EventDraft,
};
use crate::config::opt_view;
use crate::text::{owned, push_str, str_eq};
use crate::time::UtcTime;

verus! {

/// The source name of GitHub events.
pub const SOURCE: &'static str = "github";

/// The subject of a notification thread.
#[derive(Debug, Clone, PartialEq, Eq)]
pub struct GithubSubject {
    pub title: String,
    pub kind: String,
    pub url: Option<String>,
    pub latest_comment_url: Option<String>,
}

/// The repository of a notification thread.
#[derive(Debug, Clone, PartialEq, Eq)]
pub struct GithubRepository {
    pub full_name: String,
    pub html_url: Option<String>,
}

/// One notification thread.
#[derive(Debug, Clone, PartialEq, Eq)]
pub struct GithubThread {
    pub id: String,
    pub unread: bool,
    pub reason: String,
    pub updated_at: UtcTime,
    pub subject: GithubSubject,
    pub repository: GithubRepository,
    /// The thread as JSON text, kept with the event.
    pub raw_json: String,
}

/// The reasons that are kept.
pub open spec fn wanted_reason(reason: Seq<char>) -> bool {
    reason == "mention"@ || reason == "team_mention"@ || reason == "review_requested"@
}

/// A thread is kept when it is unread and has a wanted reason.
pub open spec fn kept(t: GithubThread) -> bool {
    t.unread && wanted_reason(t.reason@)
}

/// The kept threads, in order.
pub open spec fn kept_threads(ts: Seq<GithubThread>) -> Seq<GithubThread>
    decreases ts.len(),
{
    if ts.len() == 0 {
        seq![]
    } else {
        kept_threads(ts.drop_last()) + (if kept(ts.last()) {
            seq![ts.last()]
        } else {
            seq![]
        })
    }
}

/// The first of the optional values that is present.
pub open spec fn first_some(
    a: Option<String>,
    b: Option<String>,
    c: Option<String>,
) -> Option<Seq<char>> {
    match a {
        Some(x) => Some(x@),
        None => match b {
            Some(x) => Some(x@),
            None => opt_view(c),
        },
    }
}

/// The draft of a thread: `repository: title` as its title, the subject's type
/// as its body, and the most specific URL.
pub open spec fn github_draft(d: EventDraft, t: GithubThread, account_id: i64) -> bool {
    &&& d.source@ == SOURCE@
    &&& d.account_id == account_id
    &&& d.external_id@ == t.id@
    &&& d.title@ == t.repository.full_name@ + ": "@ + t.subject.title@
    &&& opt_view(d.body) == Some(t.subject.kind@)
    &&& opt_view(d.url) == first_some(
        t.subject.latest_comment_url,
        t.subject.url,
        t.repository.html_url,
    )
    &&& d.actor is None
    &&& opt_view(d.reason) == Some(t.reason@)
    &&& d.occurred_at == t.updated_at
    &&& d.raw_json@ == t.raw_json@
}

fn is_wanted_reason(reason: &str) -> (r: bool)
    ensures
        r == wanted_reason(reason@),
{
    str_eq(reason, "mention") || str_eq(reason, "team_mention") || str_eq(
        reason,
        "review_requested",
    )
}

fn into_event_draft(t: GithubThread, account_id: i64) -> (r: EventDraft)
    ensures
        github_draft(r, t, account_id),
{
    let mut title = t.repository.full_name.clone();
    push_str(&mut title, ": ");
    push_str(&mut title, t.subject.title.as_str());
    let url = match t.subject.latest_comment_url {
        Some(u) => Some(u),
        None => match t.subject.url {
            Some(u) => Some(u),
            None => t.repository.html_url,
        },
    };
    EventDraft {
        source: owned(SOURCE),
        account_id,
        external_id: t.id,
        title,
        body: Some(t.subject.kind),
        url,
        actor: None,
        reason: Some(t.reason),
        occurred_at: t.updated_at,
        raw_json: t.raw_json,
    }
}

/// The events for the kept threads, in order.
pub fn github_threads_to_event_drafts(account_id: i64, threads: Vec<GithubThread>) -> (r: Vec<
    EventDraft,
>)
    ensures
        r@.len() == kept_threads(threads@).len(),
        forall|i: int|
            0 <= i < r@.len() ==> github_draft(
                #[trigger] r@[i],
                kept_threads(threads@)[i],
                account_id,
            ),
{
    let ghost all = threads@;
    let n = threads.len();
    let mut rest = threads;
    let mut out: Vec<EventDraft> = Vec::new();
    let mut k: usize = 0;
    assert(all.skip(0) =~= all);
    while k < n
        invariant
            k <= n,
            n == all.len(),
            all == threads@,
            rest@ == all.skip(k as int),
            out@.len() == kept_threads(all.take(k as int)).len(),
            forall|i: int|
                0 <= i < out@.len() ==> github_draft(
                    #[trigger] out@[i],
                    kept_threads(all.take(k as int))[i],
                    account_id,
                ),
        decreases n - k,
    {
        assert(all.take(k + 1).drop_last() =~= all.take(k as int));
        assert(all.take(k + 1).last() == all[k as int]);
        assert(rest@[0] == all[k as int]);
        let t = rest.remove(0);
        assert(rest@ =~= all.skip(k + 1));
        if t.unread && is_wanted_reason(t.reason.as_str()) {
            let d = into_event_draft(t, account_id);
            out.push(d);
        }
        k += 1;
    }
    assert(all.take(n as int) =~= all);
    out
}

/// The outcome of a notifications response with a body: its events, the
/// `Last-Modified` value as the cursor, and the poll hint.
pub fn notifications_outcome(
    account_id: i64,
    threads: Vec<GithubThread>,
    last_modified: Option<String>,
    poll_after: Option<UtcTime>,
) -> (r: CollectOutcome)
    ensures
        r.events@.len() == kept_threads(threads@).len(),
        forall|i: int|
            0 <= i < r.events@.len() ==> github_draft(
                #[trigger] r.events@[i],
                kept_threads(threads@)[i],
                account_id,
            ),
        r.cursor_value == last_modified,
        r.poll_after == poll_after,
{
    CollectOutcome {
        events: github_threads_to_event_drafts(account_id, threads),
        cursor_value: last_modified,
        poll_after,
    }
}

/// The outcome when nothing changed since the cursor (304): no events, the
/// `Last-Modified` value as the cursor, and the poll hint.
pub fn not_modified_outcome(last_modified: Option<String>, poll_after: Option<UtcTime>) -> (r:
    CollectOutcome)
    ensures
        r.events@.len() == 0,
        r.cursor_value == last_modified,
        r.poll_after == poll_after,
{
    CollectOutcome { events: Vec::new(), cursor_value: last_modified, poll_after }
}

/// The next poll time that an `X-Poll-Interval` header names: `now` plus its
/// seconds, where it is an integer.
pub fn github_poll_after(header: Option<&str>, now: UtcTime) -> (r: Option<UtcTime>)
    requires
        header_seconds_ok(header, now),
    ensures
        r == header_time(header, now),
{
    seconds_after_header(header, now)
}


/// The notifications endpoint: unread threads, participating or not.
pub const NOTIFICATIONS_URL: &'static str =
    "https://api.github.com/notifications?all=false&participating=false";

/// The `Accept` value of the notifications request.
pub const ACCEPT_VALUE: &'static str = "application/vnd.github+json";

/// The `User-Agent` value of the notifications request.
pub const USER_AGENT_VALUE: &'static str = "signalpane/0.1";

/// Seconds before a GitHub or Slack API request times out.
pub const API_TIMEOUT_SECONDS: u64 = 10;

/// What a notifications response status means.
#[derive(Debug, Clone, PartialEq, Eq)]
pub enum NotificationsStatus {
    /// 304: nothing changed since the cursor.
    NotModified,
    /// A status outside the success range: the collection fails with this error.
    Failed(String),
    /// A success: the body holds the threads.
    Body,
}

/// The error for a failed notifications request.
pub open spec fn notifications_failure(status: Seq<char>) -> Seq<char> {
    "GitHub notifications request failed with status "@ + status
}

/// What a notifications response status means; `status_text` is the status as
/// shown in the error.
pub fn classify_notifications_status(code: u16, status_text: &str) -> (r: NotificationsStatus)
    ensures
        code == 304 ==> r == NotificationsStatus::NotModified,
        code != 304 && !is_success_code(code) ==> (r matches NotificationsStatus::Failed(e) && e@
            == notifications_failure(status_text@)),
        code != 304 && is_success_code(code) ==> r == NotificationsStatus::Body,
{
    if code == 304 {
        NotificationsStatus::NotModified
    } else if code < 200 || code > 299 {
        let mut e = owned("GitHub notifications request failed with status ");
        push_str(&mut e, status_text);
        NotificationsStatus::Failed(e)
    } else {
        NotificationsStatus::Body
    }
}

/// The URL of a thread's event is the most specific one it has: the latest
/// comment where there is one, else the subject itself, and the repository's
/// home page only when the subject has neither.
pub proof fn lemma_draft_url_is_most_specific(d: EventDraft, t: GithubThread, account_id: i64)
    requires
        github_draft(d, t, account_id),
    ensures
        t.subject.latest_comment_url is Some ==> opt_view(d.url) == Some(
            t.subject.latest_comment_url->Some_0@,
        ),
        (t.subject.latest_comment_url is None && t.subject.url is Some) ==> opt_view(d.url)
            == Some(t.subject.url->Some_0@),
        (t.subject.latest_comment_url is None && t.subject.url is None) ==> opt_view(d.url)
            == opt_view(t.repository.html_url),
        d.url is Some <==> (t.subject.latest_comment_url is Some || t.subject.url is Some
            || t.repository.html_url is Some),
        d.title@ == t.repository.full_name@ + ": "@ + t.subject.title@,
        d.external_id@ == t.id@,
        d.account_id == account_id,
        opt_view(d.reason) == Some(t.reason@),
        opt_view(d.body) == Some(t.subject.kind@),
        d.occurred_at == t.updated_at,
{
}

/// The threads kept are exactly the unread ones whose reason is a mention, a
/// team mention or a review request.
pub proof fn lemma_kept_threads_are_unread_mentions(ts: Seq<GithubThread>, t: GithubThread)
    ensures
        kept_threads(ts).contains(t) <==> (ts.contains(t) && t.unread && (t.reason@ == "mention"@
            || t.reason@ == "team_mention"@ || t.reason@ == "review_requested"@)),
        kept_threads(ts).len() <= ts.len(),
    decreases ts.len(),
{
    if ts.len() > 0 {
        let init = ts.drop_last();
        lemma_kept_threads_are_unread_mentions(init, t);
        let k = kept_threads(init);
        let tail = if kept(ts.last()) {
            seq![ts.last()]
        } else {
            Seq::<GithubThread>::empty()
        };
        assert(kept_threads(ts) == k + tail);
        if kept_threads(ts).contains(t) {
            let i = choose|i: int| 0 <= i < kept_threads(ts).len() && kept_threads(ts)[i] == t;
            if i < k.len() {
                assert(k[i] == t);
                assert(k.contains(t));
                let j = choose|j: int| 0 <= j < init.len() && init[j] == t;
                assert(ts[j] == t);
            } else {
                assert(t == ts.last());
                assert(ts[ts.len() - 1] == t);
            }
        }
        if ts.contains(t) && kept(t) {
            let j = choose|j: int| 0 <= j < ts.len() && ts[j] == t;
            if j < init.len() {
                assert(init[j] == t);
                let i = choose|i: int| 0 <= i < k.len() && k[i] == t;
                assert(kept_threads(ts)[i] == t);
            } else {
                assert(kept_threads(ts)[k.len() as int] == t);
            }
        }
    }
}

} // verus!
