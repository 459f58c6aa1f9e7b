//! Slack: direct `<@USER>` mentions in allowlisted conversations.
use vstd::prelude::*;
use vstd::string::*;

use super::{
    header_seconds_ok, header_time, is_success_code, seconds_after_header, CollectOutcome,
    EventDraft,
};
use crate::config::opt_view;
use crate::text::{
    chars_of, contains, find_char, index_of, lemma_index_of_bounds, lex_lt, lex_lt_exec,
    lemma_lex_irreflexive, lemma_lex_total, lemma_lex_transitive, owned, parse_i64,
    parse_i64_spec, parse_u64, parse_u64_spec, push_str, str_contains, string_of_range,
};
use crate::time::{rfc3339_of, timestamp_rfc3339, UtcTime};

verus! {

/// The source name of Slack events.
pub const SOURCE: &'static str = "slack";

/// One message of `conversations.history`.
#[derive(Debug, Clone, PartialEq, Eq)]
pub struct SlackMessage {
    pub ts: String,
    pub text: Option<String>,
    pub user: Option<String>,
    pub username: Option<String>,
    pub permalink: Option<String>,
    /// The message as JSON text, kept with the event.
    pub raw_json: String,
}

/// The body of a `conversations.history` response.
#[derive(Debug, Clone, PartialEq, Eq)]
pub struct SlackHistoryResponse {
    pub ok: bool,
    pub messages: Vec<SlackMessage>,
    pub error: Option<String>,
}

/// The text that mentions `user`.
pub open spec fn needle(user: Seq<char>) -> Seq<char> {
    "<@"@ + user + ">"@
}

/// The message's text mentions `user` directly.
pub open spec fn mentions(m: SlackMessage, user: Seq<char>) -> bool {
    m.text is Some && contains(m.text->Some_0@, needle(user))
}

/// The messages that mention `user`, in order.
pub open spec fn mentioning(ms: Seq<SlackMessage>, user: Seq<char>) -> Seq<SlackMessage>
    decreases ms.len(),
{
    if ms.len() == 0 {
        seq![]
    } else {
        mentioning(ms.drop_last(), user) + (if mentions(ms.last(), user) {
            seq![ms.last()]
        } else {
            seq![]
        })
    }
}

/// A `u32` written in decimal.
pub open spec fn u32_value(t: Seq<char>) -> Option<u32> {
    match parse_u64_spec(t) {
        Some(n) => if n <= u32::MAX {
            Some(n as u32)
        } else {
            None
        },
        None => None,
    }
}

/// The time of a Slack `ts` such as `1779757327.000100`: whole seconds before
/// the first dot, microseconds in the (at most six) digits after it; `None`
/// where either part does not parse or `chrono` has no such time.
pub open spec fn slack_ts_time(ts: Seq<char>) -> Option<UtcTime> {
    let k = index_of(ts, '.');
    if k >= ts.len() {
        None
    } else {
        let frac = ts.skip(k + 1);
        let digits = if frac.len() >= 6 {
            frac.take(6)
        } else {
            frac
        };
        match (parse_i64_spec(ts.take(k)), u32_value(digits)) {
            (Some(secs), Some(micros)) => {
                if micros <= 4294967 && rfc3339_of(secs, (micros * 1000) as u32) is Some {
                    Some(UtcTime { secs, nanos: (micros * 1000) as u32 })
                } else {
                    None
                }
            },
            _ => None,
        }
    }
}

fn parse_u32(s: &str) -> (r: Option<u32>)
    ensures
        r == u32_value(s@),
{
    match parse_u64(s) {
        Some(n) => if n <= u32::MAX as u64 {
            Some(n as u32)
        } else {
            None
        },
        None => None,
    }
}

/// The time that a Slack `ts` stands for.
pub fn slack_ts_to_datetime(ts: &str) -> (r: Option<UtcTime>)
    ensures
        r == slack_ts_time(ts@),
{
    let v = chars_of(ts);
    let k = find_char(&v, '.');
    proof {
        lemma_index_of_bounds(v@, '.');
    }
    if k >= v.len() {
        return None;
    }
    let secs_text = string_of_range(&v, 0, k);
    assert(secs_text@ =~= ts@.take(k as int));
    let frac_len = v.len() - (k + 1);
    let digits_end = if frac_len >= 6 {
        k + 1 + 6
    } else {
        v.len()
    };
    let digits = string_of_range(&v, k + 1, digits_end);
    assert(digits@ =~= (if ts@.skip(k + 1).len() >= 6 {
        ts@.skip(k + 1).take(6)
    } else {
        ts@.skip(k + 1)
    }));
    let secs = match parse_i64(secs_text.as_str()) {
        Some(s) => s,
        None => return None,
    };
    let micros = match parse_u32(digits.as_str()) {
        Some(m) => m,
        None => return None,
    };
    if micros > 4294967 {
        return None;
    }
    let nanos = micros * 1000;
    match timestamp_rfc3339(secs, nanos) {
        Some(_) => Some(UtcTime { secs, nanos }),
        None => None,
    }
}

/// The draft of a mention: `channel:ts` as its ID, the text as its body, the
/// user (else the user name) as its actor.
pub open spec fn slack_draft(
    d: EventDraft,
    m: SlackMessage,
    account_id: i64,
    channel: Seq<char>,
    at: UtcTime,
) -> bool {
    &&& d.source@ == SOURCE@
    &&& d.account_id == account_id
    &&& d.external_id@ == channel + seq![':'] + m.ts@
    &&& d.title@ == "Slack mention in "@ + channel
    &&& opt_view(d.body) == opt_view(m.text)
    &&& opt_view(d.url) == opt_view(m.permalink)
    &&& opt_view(d.actor) == (match m.user {
        Some(u) => Some(u@),
        None => opt_view(m.username),
    })
    &&& opt_view(d.reason) == Some("mention"@)
    &&& d.occurred_at == at
    &&& d.raw_json@ == m.raw_json@
}

/// The error for a message whose `ts` is not a time.
pub open spec fn invalid_ts_message(ts: Seq<char>) -> Seq<char> {
    "invalid Slack ts "@ + ts
}

fn into_event_draft(m: SlackMessage, account_id: i64, channel_id: &str) -> (r: Result<
    EventDraft,
    String,
>)
    ensures
        match r {
            Ok(d) => slack_ts_time(m.ts@) is Some && slack_draft(
                d,
                m,
                account_id,
                channel_id@,
                slack_ts_time(m.ts@)->Some_0,
            ),
            Err(e) => slack_ts_time(m.ts@) is None && e@ == invalid_ts_message(m.ts@),
        },
{
    let occurred_at = match slack_ts_to_datetime(m.ts.as_str()) {
        Some(t) => t,
        None => {
            let mut e = owned("invalid Slack ts ");
            push_str(&mut e, m.ts.as_str());
            return Err(e);
        },
    };
    let mut external_id = owned(channel_id);
    crate::text::push_char(&mut external_id, ':');
    push_str(&mut external_id, m.ts.as_str());
    assert(external_id@ =~= channel_id@ + seq![':'] + m.ts@);
    let mut title = owned("Slack mention in ");
    push_str(&mut title, channel_id);
    let actor = match m.user {
        Some(u) => Some(u),
        None => m.username,
    };
    Ok(
        EventDraft {
            source: owned(SOURCE),
            account_id,
            external_id,
            title,
            body: m.text,
            url: m.permalink,
            actor,
            reason: Some(owned("mention")),
            occurred_at,
            raw_json: m.raw_json,
        },
    )
}

fn mentions_exec(m: &SlackMessage, needle_text: &str, user: Ghost<Seq<char>>) -> (r: bool)
    requires
        needle_text@ == needle(user@),
    ensures
        r == mentions(*m, user@),
{
    match &m.text {
        Some(t) => str_contains(t.as_str(), needle_text),
        None => false,
    }
}

/// The events for the messages that mention `user_id` directly (`<@USER>`),
/// in order; fails on the first such message whose `ts` is not a time.
pub fn slack_messages_to_event_drafts(
    account_id: i64,
    channel_id: &str,
    user_id: &str,
    messages: Vec<SlackMessage>,
) -> (r: Result<Vec<EventDraft>, String>)
    ensures
        ({
            let sel = mentioning(messages@, user_id@);
            match r {
                Ok(ds) => all_times(sel) && drafts_of(ds@, sel, account_id, channel_id@),
                Err(e) => fails_at(sel, e@),
            }
        }),
{
    let mut needle_text = owned("<@");
    push_str(&mut needle_text, user_id);
    push_str(&mut needle_text, ">");
    let ghost all = messages@;
    let n = messages.len();
    let mut rest = messages;
    let mut out: Vec<EventDraft> = Vec::new();
    let mut k: usize = 0;
    assert(all.skip(0) =~= all);
    while k < n
        invariant
            k <= n,
            n == all.len(),
            all == messages@,
            rest@ == all.skip(k as int),
            needle_text@ == needle(user_id@),
            all_times(mentioning(all.take(k as int), user_id@)),
            drafts_of(out@, mentioning(all.take(k as int), user_id@), account_id, channel_id@),
        decreases n - k,
    {
        proof {
            lemma_mentioning_step(all, user_id@, k as int);
        }
        assert(rest@[0] == all[k as int]);
        let m = rest.remove(0);
        assert(rest@ =~= all.skip(k + 1));
        let ghost mv = m;
        if mentions_exec(&m, needle_text.as_str(), Ghost(user_id@)) {
            match into_event_draft(m, account_id, channel_id) {
                Ok(d) => {
                    let ghost before = out@;
                    out.push(d);
                    proof {
                        let sel = mentioning(all.take(k + 1), user_id@);
                        assert forall|i: int| 0 <= i < sel.len() implies slack_draft(
                            #[trigger] out@[i],
                            sel[i],
                            account_id,
                            channel_id@,
                            slack_ts_time(sel[i].ts@)->Some_0,
                        ) by {
                            if i < before.len() {
                                assert(out@[i] == before[i]);
                            }
                        }
                    }
                },
                Err(e) => {
                    proof {
                        assert(mv == all[k as int]);
                        assert(e@ == invalid_ts_message(all[k as int].ts@));
                        lemma_failure_witness(all, user_id@, k as int);
                        assert(fails_at(mentioning(all, user_id@), e@));
                    }
                    return Err(e);
                },
            }
        }
        k += 1;
    }
    assert(all.take(n as int) =~= all);
    Ok(out)
}

/// Every message of `sel` has a `ts` that is a time.
pub open spec fn all_times(sel: Seq<SlackMessage>) -> bool {
    forall|i: int| 0 <= i < sel.len() ==> slack_ts_time(#[trigger] sel[i].ts@) is Some
}

/// `ds` holds the drafts of the messages of `sel`, one for one and in order.
pub open spec fn drafts_of(
    ds: Seq<EventDraft>,
    sel: Seq<SlackMessage>,
    account_id: i64,
    channel: Seq<char>,
) -> bool {
    &&& ds.len() == sel.len()
    &&& forall|i: int|
        0 <= i < sel.len() ==> slack_draft(
            #[trigger] ds[i],
            sel[i],
            account_id,
            channel,
            slack_ts_time(sel[i].ts@)->Some_0,
        )
}

proof fn lemma_mentioning_step(all: Seq<SlackMessage>, user: Seq<char>, k: int)
    requires
        0 <= k < all.len(),
    ensures
        mentioning(all.take(k + 1), user) == (if mentions(all[k], user) {
            mentioning(all.take(k), user).push(all[k])
        } else {
            mentioning(all.take(k), user)
        }),
{
    assert(all.take(k + 1).drop_last() =~= all.take(k));
    assert(all.take(k + 1).last() == all[k]);
    if mentions(all[k], user) {
        assert(mentioning(all.take(k + 1), user) =~= mentioning(all.take(k), user).push(all[k]));
    } else {
        assert(mentioning(all.take(k + 1), user) =~= mentioning(all.take(k), user));
    }
}

/// The first mention in `sel` whose `ts` is not a time, and the error it gives.
pub open spec fn fails_at(sel: Seq<SlackMessage>, e: Seq<char>) -> bool {
    exists|i: int|
        0 <= i < sel.len() && slack_ts_time(#[trigger] sel[i].ts@) is None && (forall|j: int|
            0 <= j < i ==> slack_ts_time(#[trigger] sel[j].ts@) is Some) && e
            == invalid_ts_message(sel[i].ts@)
}

proof fn lemma_failure_witness(all: Seq<SlackMessage>, user: Seq<char>, k: int)
    requires
        0 <= k < all.len(),
        mentions(all[k], user),
        slack_ts_time(all[k].ts@) is None,
        forall|i: int|
            0 <= i < mentioning(all.take(k), user).len() ==> slack_ts_time(
                #[trigger] mentioning(all.take(k), user)[i].ts@,
            ) is Some,
    ensures
        fails_at(mentioning(all, user), invalid_ts_message(all[k].ts@)),
{
    let sel = mentioning(all, user);
    let prev = mentioning(all.take(k), user);
    lemma_mentioning_prefix(all, user, k + 1);
    assert(all.take(k + 1).drop_last() =~= all.take(k));
    assert(all.take(k + 1).last() == all[k]);
    let t = mentioning(all.take(k + 1), user);
    assert(t =~= prev.push(all[k]));
    assert(sel.take(t.len() as int) == t);
    assert(sel.take(t.len() as int)[prev.len() as int] == sel[prev.len() as int]);
    assert(sel[prev.len() as int] == all[k]);
    assert forall|j: int| 0 <= j < prev.len() implies slack_ts_time(#[trigger] sel[j].ts@) is Some by {
        assert(sel.take(t.len() as int)[j] == sel[j]);
        assert(t[j] == prev[j]);
    }
    assert(slack_ts_time(sel[prev.len() as int].ts@) is None);
}

proof fn lemma_mentioning_prefix(ms: Seq<SlackMessage>, user: Seq<char>, k: int)
    requires
        0 <= k <= ms.len(),
    ensures
        mentioning(ms.take(k), user).len() <= mentioning(ms, user).len(),
        mentioning(ms, user).take(mentioning(ms.take(k), user).len() as int) == mentioning(
            ms.take(k),
            user,
        ),
    decreases ms.len() - k,
{
    if k < ms.len() {
        lemma_mentioning_prefix(ms.drop_last(), user, k);
        assert(ms.drop_last().take(k) =~= ms.take(k));
        let a = mentioning(ms.drop_last(), user);
        let b = mentioning(ms, user);
        assert(b.take(a.len() as int) =~= a);
        let n = mentioning(ms.take(k), user).len() as int;
        assert(b.take(n) =~= a.take(n));
    } else {
        assert(ms.take(k) =~= ms);
        assert(mentioning(ms, user).take(mentioning(ms, user).len() as int) =~= mentioning(
            ms,
            user,
        ));
    }
}

/// The `ts` of some message, no `ts` being later in lexicographic order; `None`
/// for no messages. The cursor moves to the newest message seen, mention or not.
pub open spec fn is_latest_ts(r: Option<Seq<char>>, ms: Seq<SlackMessage>) -> bool {
    match r {
        None => ms.len() == 0,
        Some(t) => (exists|i: int| 0 <= i < ms.len() && #[trigger] ms[i].ts@ == t) && forall|
            j: int,
        | 0 <= j < ms.len() ==> !lex_lt(t, #[trigger] ms[j].ts@),
    }
}

/// The largest `ts` among the messages.
pub fn latest_message_ts(messages: &Vec<SlackMessage>) -> (r: Option<String>)
    ensures
        is_latest_ts(opt_view(r), messages@),
{
    if messages.len() == 0 {
        return None;
    }
    let mut best: usize = 0;
    let mut best_chars = chars_of(messages[0].ts.as_str());
    proof {
        lemma_lex_irreflexive(best_chars@);
    }
    let mut i: usize = 1;
    while i < messages.len()
        invariant
            1 <= i <= messages.len(),
            best < messages.len(),
            best_chars@ == messages@[best as int].ts@,
            forall|j: int| 0 <= j < i ==> !lex_lt(best_chars@, #[trigger] messages@[j].ts@),
        decreases messages.len() - i,
    {
        let c = chars_of(messages[i].ts.as_str());
        if lex_lt_exec(&best_chars, &c) {
            proof {
                lemma_lex_irreflexive(c@);
                assert forall|j: int| 0 <= j < i + 1 implies !lex_lt(c@, #[trigger] messages@[j].ts@) by {
                    if j < i {
                        if lex_lt(c@, messages@[j].ts@) {
                            lemma_lex_transitive(best_chars@, c@, messages@[j].ts@);
                        }
                    }
                }
            }
            best = i;
            best_chars = c;
        } else {
            proof {
                lemma_lex_irreflexive(best_chars@);
            }
        }
        i += 1;
    }
    Some(messages[best].ts.clone())
}

/// The error for a history response that is not `ok`.
pub open spec fn history_error_message(error: Option<String>) -> Seq<char> {
    "Slack conversations.history returned error: "@ + match error {
        Some(e) => e@,
        None => "unknown"@,
    }
}

/// The outcome of a successful `conversations.history` call: the mentions
/// among the messages, and the cursor moved to the newest message (else kept).
pub fn history_outcome(
    account_id: i64,
    channel_id: &str,
    user_id: &str,
    oldest: Option<String>,
    history: SlackHistoryResponse,
) -> (r: Result<CollectOutcome, String>)
    ensures
        !history.ok ==> r is Err && r->Err_0@ == history_error_message(history.error),
        history.ok ==> match r {
            Ok(o) => {
                &&& o.poll_after is None
                &&& history.messages@.len() > 0 ==> is_latest_ts(
                    opt_view(o.cursor_value),
                    history.messages@,
                )
                &&& history.messages@.len() == 0 ==> opt_view(o.cursor_value) == opt_view(oldest)
                &&& all_times(mentioning(history.messages@, user_id@))
                &&& drafts_of(o.events@, mentioning(history.messages@, user_id@), account_id, channel_id@)
            },
            Err(e) => fails_at(mentioning(history.messages@, user_id@), e@),
        },
{
    if !history.ok {
        let mut m = owned("Slack conversations.history returned error: ");
        match &history.error {
            Some(e) => push_str(&mut m, e.as_str()),
            None => push_str(&mut m, "unknown"),
        }
        return Err(m);
    }
    let latest = latest_message_ts(&history.messages);
    let events = match slack_messages_to_event_drafts(
        account_id,
        channel_id,
        user_id,
        history.messages,
    ) {
        Ok(ds) => ds,
        Err(e) => return Err(e),
    };
    let cursor_value = match latest {
        Some(t) => Some(t),
        None => oldest,
    };
    Ok(CollectOutcome { events, cursor_value, poll_after: None })
}

/// The outcome when Slack asks to slow down: nothing collected, the cursor
/// kept, and the time it names for the next poll.
pub fn rate_limited_outcome(oldest: Option<String>, poll_after: Option<UtcTime>) -> (r:
    CollectOutcome)
    ensures
        r.events@.len() == 0,
        r.cursor_value == oldest,
        r.poll_after == poll_after,
{
    CollectOutcome { events: Vec::new(), cursor_value: oldest, poll_after }
}

/// The next poll time that a `Retry-After` header names: `now` plus its
/// seconds, where it is an integer.
pub fn parse_retry_after(header: Option<&str>, now: UtcTime) -> (r: Option<UtcTime>)
    requires
        header_seconds_ok(header, now),
    ensures
        r == header_time(header, now),
{
    seconds_after_header(header, now)
}


/// The endpoint that names the token's user.
pub const AUTH_TEST_URL: &'static str = "https://slack.com/api/auth.test";

/// The endpoint that lists a conversation's messages.
pub const HISTORY_URL: &'static str = "https://slack.com/api/conversations.history";

/// The query of a history request: the channel, at most 100 messages, and
/// only those after `oldest` where there is a cursor.
pub fn history_query(channel_id: &str, oldest: Option<&str>) -> (r: Vec<(String, String)>)
    ensures
        r@.len() == (if oldest is Some {
            4int
        } else {
            2int
        }),
        r@[0].0@ == "channel"@ && r@[0].1@ == channel_id@,
        r@[1].0@ == "limit"@ && r@[1].1@ == "100"@,
        oldest is Some ==> r@[2].0@ == "oldest"@ && r@[2].1@ == oldest->Some_0@ && r@[3].0@
            == "inclusive"@ && r@[3].1@ == "false"@,
{
    let mut r: Vec<(String, String)> = Vec::new();
    r.push((owned("channel"), owned(channel_id)));
    r.push((owned("limit"), owned("100")));
    match oldest {
        Some(o) => {
            r.push((owned("oldest"), owned(o)));
            r.push((owned("inclusive"), owned("false")));
        },
        None => {},
    }
    r
}

/// What a history response status means.
#[derive(Debug, Clone, PartialEq, Eq)]
pub enum HistoryStatus {
    /// 429: Slack asks to slow down.
    RateLimited,
    /// A status outside the success range: the collection fails with this error.
    Failed(String),
    /// A success: the body holds the history.
    Body,
}

/// The error for a failed history request.
pub open spec fn history_failure(status: Seq<char>) -> Seq<char> {
    "Slack conversations.history failed with status "@ + status
}

/// What a history response status means; `status_text` is the status as shown
/// in the error.
pub fn classify_history_status(code: u16, status_text: &str) -> (r: HistoryStatus)
    ensures
        code == 429 ==> r == HistoryStatus::RateLimited,
        code != 429 && !is_success_code(code) ==> (r matches HistoryStatus::Failed(e) && e@
            == history_failure(status_text@)),
        code != 429 && is_success_code(code) ==> r == HistoryStatus::Body,
{
    if code == 429 {
        HistoryStatus::RateLimited
    } else if code < 200 || code > 299 {
        let mut e = owned("Slack conversations.history failed with status ");
        push_str(&mut e, status_text);
        HistoryStatus::Failed(e)
    } else {
        HistoryStatus::Body
    }
}

/// The body of an `auth.test` response.
#[derive(Debug, Clone, PartialEq, Eq)]
pub struct SlackAuthResponse {
    pub ok: bool,
    pub user_id: Option<String>,
    pub error: Option<String>,
}

/// The error for an `auth.test` request that failed.
pub open spec fn auth_status_failure(status: Seq<char>) -> Seq<char> {
    "Slack auth.test failed with status "@ + status
}

/// The error for an `auth.test` status outside the success range.
pub fn auth_status_error(code: u16, status_text: &str) -> (r: Option<String>)
    ensures
        is_success_code(code) ==> r is None,
        !is_success_code(code) ==> r is Some && r->Some_0@ == auth_status_failure(status_text@),
{
    if code < 200 || code > 299 {
        let mut e = owned("Slack auth.test failed with status ");
        push_str(&mut e, status_text);
        Some(e)
    } else {
        None
    }
}

/// The error for an `auth.test` answer that is not `ok`.
pub open spec fn auth_error_message(error: Option<String>) -> Seq<char> {
    "Slack auth.test returned error: "@ + match error {
        Some(e) => e@,
        None => "unknown"@,
    }
}

/// The user that `auth.test` names; an error where it is not `ok` or names no user.
pub fn auth_user_id(auth: SlackAuthResponse) -> (r: Result<String, String>)
    ensures
        !auth.ok ==> r is Err && r->Err_0@ == auth_error_message(auth.error),
        auth.ok && auth.user_id is None ==> r is Err && r->Err_0@
            == "Slack auth.test did not return user_id"@,
        auth.ok && auth.user_id is Some ==> r is Ok && r->Ok_0@ == auth.user_id->Some_0@,
{
    if !auth.ok {
        let mut m = owned("Slack auth.test returned error: ");
        match &auth.error {
            Some(e) => push_str(&mut m, e.as_str()),
            None => push_str(&mut m, "unknown"),
        }
        return Err(m);
    }
    match auth.user_id {
        Some(u) => Ok(u),
        None => Err(owned("Slack auth.test did not return user_id")),
    }
}

/// The messages turned into events are exactly those whose text holds the
/// direct mention `<@USER>` of the user; a message without text, or one that
/// only names the user otherwise, is not.
pub proof fn lemma_mentioning_is_direct_mentions(
    ms: Seq<SlackMessage>,
    user: Seq<char>,
    m: SlackMessage,
)
    ensures
        mentioning(ms, user).contains(m) <==> (ms.contains(m) && m.text is Some && contains(
            m.text->Some_0@,
            "<@"@ + user + ">"@,
        )),
        mentioning(ms, user).len() <= ms.len(),
    decreases ms.len(),
{
    if ms.len() > 0 {
        let init = ms.drop_last();
        lemma_mentioning_is_direct_mentions(init, user, m);
        let k = mentioning(init, user);
        let tail = if mentions(ms.last(), user) {
            seq![ms.last()]
        } else {
            Seq::<SlackMessage>::empty()
        };
        assert(mentioning(ms, user) == k + tail);
        if mentioning(ms, user).contains(m) {
            let i = choose|i: int| 0 <= i < mentioning(ms, user).len() && mentioning(ms, user)[i] == m;
            if i < k.len() {
                assert(k[i] == m);
                assert(k.contains(m));
                let j = choose|j: int| 0 <= j < init.len() && init[j] == m;
                assert(ms[j] == m);
            } else {
                assert(m == ms.last());
                assert(ms[ms.len() - 1] == m);
            }
        }
        if ms.contains(m) && mentions(m, user) {
            let j = choose|j: int| 0 <= j < ms.len() && ms[j] == m;
            if j < init.len() {
                assert(init[j] == m);
                let i = choose|i: int| 0 <= i < k.len() && k[i] == m;
                assert(mentioning(ms, user)[i] == m);
            } else {
                assert(mentioning(ms, user)[k.len() as int] == m);
            }
        }
    }
}

} // verus!
