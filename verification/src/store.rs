//! What the store decides about source cursors: how their metadata is merged
//! and rewritten after a poll, and what health it reports for each of them.
use vstd::prelude::*;
use vstd::string::*;

use crate::config::opt_view;
use crate::model::{Account, SourceStatus};
use crate::text::{owned, str_eq};
use crate::time::{opt_instant, parse_rfc3339, rfc3339_parsed, UtcTime};

verus! {

/// A value in a cursor's metadata object. JSON strings and non-negative
/// integers are what the health report reads; every other JSON value is kept
/// as its JSON text.
#[derive(Debug, Clone, PartialEq, Eq)]
pub enum MetaValue {
    Text(String),
    Unsigned(u64),
    Other(String),
}

/// The mathematical value of a [`MetaValue`].
pub enum MetaView {
    Text(Seq<char>),
    Unsigned(u64),
    Other(Seq<char>),
}

impl View for MetaValue {
    type V = MetaView;

    open spec fn view(&self) -> MetaView {
        match self {
            MetaValue::Text(s) => MetaView::Text(s@),
            MetaValue::Unsigned(n) => MetaView::Unsigned(*n),
            MetaValue::Other(s) => MetaView::Other(s@),
        }
    }
}

/// The object that a list of entries describes, a later entry for a key
/// replacing an earlier one.
pub open spec fn map_of(entries: Seq<(String, MetaValue)>) -> Map<Seq<char>, MetaView>
    decreases entries.len(),
{
    if entries.len() == 0 {
        Map::empty()
    } else {
        map_of(entries.drop_last()).insert(entries.last().0@, entries.last().1@)
    }
}

/// The metadata object of a cursor.
#[derive(Debug, Clone, PartialEq, Eq)]
pub struct Metadata {
    entries: Vec<(String, MetaValue)>,
}

impl View for Metadata {
    type V = Map<Seq<char>, MetaView>;

    closed spec fn view(&self) -> Map<Seq<char>, MetaView> {
        map_of(self.entries@)
    }
}

proof fn lemma_map_of_push(e: Seq<(String, MetaValue)>, i: int)
    requires
        0 <= i < e.len(),
    ensures
        map_of(e.take(i + 1)) == map_of(e.take(i)).insert(e[i].0@, e[i].1@),
{
    assert(e.take(i + 1).drop_last() =~= e.take(i));
    assert(e.take(i + 1).last() == e[i]);
}

impl Metadata {
    /// The empty object.
    pub fn new() -> (r: Self)
        ensures
            r@ == Map::<Seq<char>, MetaView>::empty(),
    {
        Metadata { entries: Vec::new() }
    }

    /// The object of the entries, a later entry for a key replacing an earlier one.
    pub fn from_entries(entries: Vec<(String, MetaValue)>) -> (r: Self)
        ensures
            r@ == map_of(entries@),
    {
        Metadata { entries }
    }

    /// Entries that describe the object.
    pub fn entries(&self) -> (r: &Vec<(String, MetaValue)>)
        ensures
            map_of(r@) == self@,
    {
        &self.entries
    }

    /// The value under `key`.
    pub fn get(&self, key: &str) -> (r: Option<&MetaValue>)
        ensures
            match r {
                Some(v) => self@.contains_key(key@) && self@[key@] == v@,
                None => !self@.contains_key(key@),
            },
    {
        let mut found: Option<usize> = None;
        let mut i: usize = 0;
        assert(self.entries@.take(0) =~= Seq::<(String, MetaValue)>::empty());
        while i < self.entries.len()
            invariant
                i <= self.entries@.len(),
                match found {
                    Some(j) => j < i && map_of(self.entries@.take(i as int)).contains_key(key@)
                        && map_of(self.entries@.take(i as int))[key@] == self.entries@[j as int].1@,
                    None => !map_of(self.entries@.take(i as int)).contains_key(key@),
                },
            decreases self.entries@.len() - i,
        {
            proof {
                lemma_map_of_push(self.entries@, i as int);
            }
            if str_eq(self.entries[i].0.as_str(), key) {
                found = Some(i);
            }
            i += 1;
        }
        assert(self.entries@.take(i as int) =~= self.entries@);
        match found {
            Some(j) => Some(&self.entries[j].1),
            None => None,
        }
    }

    /// Takes `key` out of the object.
    pub fn remove(&mut self, key: &str)
        ensures
            final(self)@ == old(self)@.remove(key@),
    {
        let mut kept: Vec<(String, MetaValue)> = Vec::new();
        let mut rest: Vec<(String, MetaValue)> = Vec::new();
        std::mem::swap(&mut rest, &mut self.entries);
        let ghost all = rest@;
        let n = rest.len();
        let mut i: usize = 0;
        assert(all.skip(0) =~= all);
        assert(all.take(0) =~= Seq::<(String, MetaValue)>::empty());
        while i < n
            invariant
                i <= n,
                n == all.len(),
                all == old(self).entries@,
                rest@ == all.skip(i as int),
                map_of(kept@) == map_of(all.take(i as int)).remove(key@),
            decreases n - i,
        {
            proof {
                lemma_map_of_push(all, i as int);
            }
            assert(rest@[0] == all[i as int]);
            let entry = rest.remove(0);
            assert(rest@ =~= all.skip(i + 1));
            if !str_eq(entry.0.as_str(), key) {
                let ghost before = kept@;
                kept.push(entry);
                proof {
                    assert(kept@.drop_last() =~= before);
                    assert(map_of(kept@) =~= map_of(all.take(i + 1)).remove(key@));
                }
            } else {
                assert(map_of(kept@) =~= map_of(all.take(i + 1)).remove(key@));
            }
            i += 1;
        }
        assert(all.take(n as int) =~= all);
        self.entries = kept;
    }

    /// Sets `key` to `value`.
    pub fn insert(&mut self, key: String, value: MetaValue)
        ensures
            final(self)@ == old(self)@.insert(key@, value@),
    {
        self.remove(key.as_str());
        let ghost before = self.entries@;
        self.entries.push((key, value));
        proof {
            assert(self.entries@.drop_last() =~= before);
            assert(self@ =~= old(self)@.insert(key@, value@));
        }
    }
}


impl MetaValue {
    /// A copy of the value.
    pub fn duplicate(&self) -> (r: MetaValue)
        ensures
            r@ == self@,
    {
        match self {
            MetaValue::Text(s) => MetaValue::Text(s.clone()),
            MetaValue::Unsigned(n) => MetaValue::Unsigned(*n),
            MetaValue::Other(s) => MetaValue::Other(s.clone()),
        }
    }
}

impl Metadata {
    /// Sets each key of `entries` to its value, in order.
    fn insert_all(&mut self, entries: &Vec<(String, MetaValue)>)
        ensures
            final(self)@ == old(self)@.union_prefer_right(map_of(entries@)),
    {
        let mut i: usize = 0;
        assert(entries@.take(0) =~= Seq::<(String, MetaValue)>::empty());
        assert(old(self)@.union_prefer_right(Map::empty()) =~= old(self)@);
        while i < entries.len()
            invariant
                i <= entries@.len(),
                self@ == old(self)@.union_prefer_right(map_of(entries@.take(i as int))),
            decreases entries@.len() - i,
        {
            proof {
                lemma_map_of_push(entries@, i as int);
            }
            let key = entries[i].0.clone();
            let value = entries[i].1.duplicate();
            self.insert(key, value);
            assert(self@ =~= old(self)@.union_prefer_right(map_of(entries@.take(i + 1))));
            i += 1;
        }
        assert(entries@.take(i as int) =~= entries@);
    }
}

/// The key of the time of the last successful poll.
pub const LAST_SUCCESS_AT: &'static str = "last_success_at";

/// The key of the time of the last failed poll.
pub const LAST_ERROR_AT: &'static str = "last_error_at";

/// The key of the message of the last failed poll.
pub const LAST_ERROR: &'static str = "last_error";

/// The key of the number of failed polls in a row.
pub const CONSECUTIVE_FAILURES: &'static str = "consecutive_failures";

/// The object of an optional metadata, an absent one being empty.
pub open spec fn meta_or_empty(m: Option<Map<Seq<char>, MetaView>>) -> Map<Seq<char>, MetaView> {
    match m {
        Some(v) => v,
        None => Map::empty(),
    }
}

/// The previous metadata with the keys of the overlay set over it.
pub open spec fn merged(
    previous: Option<Map<Seq<char>, MetaView>>,
    overlay: Map<Seq<char>, MetaView>,
) -> Map<Seq<char>, MetaView> {
    meta_or_empty(previous).union_prefer_right(overlay)
}

/// The metadata written after a successful poll at `now`: the error keys are
/// gone, the failure count is zero.
pub open spec fn success_meta(
    previous: Option<Map<Seq<char>, MetaView>>,
    overlay: Map<Seq<char>, MetaView>,
    now: Seq<char>,
) -> Map<Seq<char>, MetaView> {
    merged(previous, overlay).insert(LAST_SUCCESS_AT@, MetaView::Text(now)).remove(
        LAST_ERROR_AT@,
    ).remove(LAST_ERROR@).insert(CONSECUTIVE_FAILURES@, MetaView::Unsigned(0))
}

/// The metadata written after a failed poll at `now`.
pub open spec fn failure_meta(
    previous: Option<Map<Seq<char>, MetaView>>,
    overlay: Map<Seq<char>, MetaView>,
    error: Seq<char>,
    failures: u32,
    now: Seq<char>,
) -> Map<Seq<char>, MetaView> {
    merged(previous, overlay).insert(LAST_ERROR_AT@, MetaView::Text(now)).insert(
        LAST_ERROR@,
        MetaView::Text(error),
    ).insert(CONSECUTIVE_FAILURES@, MetaView::Unsigned(failures as u64))
}

/// The view of an optional metadata.
pub open spec fn opt_meta(m: Option<&Metadata>) -> Option<Map<Seq<char>, MetaView>> {
    match m {
        Some(v) => Some(v@),
        None => None,
    }
}

/// The previous metadata with the keys of the overlay set over it.
pub fn merged_metadata(previous: Option<&Metadata>, overlay: &Metadata) -> (r: Metadata)
    ensures
        r@ == merged(opt_meta(previous), overlay@),
{
    let mut r = Metadata::new();
    match previous {
        Some(p) => r.insert_all(p.entries()),
        None => {},
    }
    assert(Map::<Seq<char>, MetaView>::empty().union_prefer_right(meta_or_empty(opt_meta(previous)))
        =~= meta_or_empty(opt_meta(previous)));
    r.insert_all(overlay.entries());
    r
}

/// The metadata to write after a successful poll at `now`.
pub fn success_metadata(previous: Option<&Metadata>, overlay: &Metadata, now: &str) -> (r:
    Metadata)
    ensures
        r@ == success_meta(opt_meta(previous), overlay@, now@),
{
    let mut m = merged_metadata(previous, overlay);
    m.insert(owned(LAST_SUCCESS_AT), MetaValue::Text(owned(now)));
    m.remove(LAST_ERROR_AT);
    m.remove(LAST_ERROR);
    m.insert(owned(CONSECUTIVE_FAILURES), MetaValue::Unsigned(0));
    m
}

/// The metadata to write after the `failures`-th failed poll in a row, at `now`.
pub fn failure_metadata(
    previous: Option<&Metadata>,
    overlay: &Metadata,
    error: &str,
    failures: u32,
    now: &str,
) -> (r: Metadata)
    ensures
        r@ == failure_meta(opt_meta(previous), overlay@, error@, failures, now@),
{
    let mut m = merged_metadata(previous, overlay);
    m.insert(owned(LAST_ERROR_AT), MetaValue::Text(owned(now)));
    m.insert(owned(LAST_ERROR), MetaValue::Text(owned(error)));
    m.insert(owned(CONSECUTIVE_FAILURES), MetaValue::Unsigned(failures as u64));
    m
}

/// The instant that the text under `key` names, where it is an RFC 3339 text.
pub open spec fn meta_time(m: Map<Seq<char>, MetaView>, key: Seq<char>) -> Option<(i64, u32)> {
    if m.contains_key(key) {
        match m[key] {
            MetaView::Text(s) => rfc3339_parsed(s),
            _ => None,
        }
    } else {
        None
    }
}

/// The last error message, where it is a non-empty text.
pub open spec fn meta_error(m: Map<Seq<char>, MetaView>) -> Option<Seq<char>> {
    if m.contains_key(LAST_ERROR@) {
        match m[LAST_ERROR@] {
            MetaView::Text(s) => if s.len() > 0 {
                Some(s)
            } else {
                None
            },
            _ => None,
        }
    } else {
        None
    }
}

/// The failure count, where it is an integer that fits in `u32`; else zero.
pub open spec fn meta_failures(m: Map<Seq<char>, MetaView>) -> u32 {
    if m.contains_key(CONSECUTIVE_FAILURES@) {
        match m[CONSECUTIVE_FAILURES@] {
            MetaView::Unsigned(n) => if n <= u32::MAX {
                n as u32
            } else {
                0
            },
            _ => 0,
        }
    } else {
        0
    }
}

/// The health that a cursor's metadata reports.
#[derive(Debug, Clone, PartialEq, Eq)]
pub struct CursorHealth {
    pub last_success_at: Option<UtcTime>,
    pub last_error_at: Option<UtcTime>,
    pub last_error: Option<String>,
    pub consecutive_failures: u32,
}

/// `h` is the health that `m` reports.
pub open spec fn health_of(h: CursorHealth, m: Map<Seq<char>, MetaView>) -> bool {
    &&& opt_instant(h.last_success_at) == meta_time(m, LAST_SUCCESS_AT@)
    &&& opt_instant(h.last_error_at) == meta_time(m, LAST_ERROR_AT@)
    &&& opt_view(h.last_error) == meta_error(m)
    &&& h.consecutive_failures == meta_failures(m)
}

/// The time under `key`, where it holds an RFC 3339 text.
pub fn metadata_datetime(metadata: &Metadata, key: &str) -> (r: Option<UtcTime>)
    ensures
        opt_instant(r) == meta_time(metadata@, key@),
{
    match metadata.get(key) {
        Some(MetaValue::Text(s)) => parse_rfc3339(s.as_str()),
        _ => None,
    }
}

/// The health that a cursor's metadata reports.
pub fn cursor_health(metadata: &Metadata) -> (r: CursorHealth)
    ensures
        health_of(r, metadata@),
{
    let last_error = match metadata.get(LAST_ERROR) {
        Some(MetaValue::Text(s)) => if s.as_str().unicode_len() > 0 {
            Some(s.clone())
        } else {
            None
        },
        _ => None,
    };
    let consecutive_failures: u32 = match metadata.get(CONSECUTIVE_FAILURES) {
        Some(MetaValue::Unsigned(n)) => if *n <= u32::MAX as u64 {
            *n as u32
        } else {
            0
        },
        _ => 0,
    };
    CursorHealth {
        last_success_at: metadata_datetime(metadata, LAST_SUCCESS_AT),
        last_error_at: metadata_datetime(metadata, LAST_ERROR_AT),
        last_error,
        consecutive_failures,
    }
}

proof fn lemma_keys_distinct()
    ensures
        LAST_SUCCESS_AT@ != LAST_ERROR_AT@,
        LAST_SUCCESS_AT@ != LAST_ERROR@,
        LAST_SUCCESS_AT@ != CONSECUTIVE_FAILURES@,
        LAST_ERROR_AT@ != LAST_ERROR@,
        LAST_ERROR_AT@ != CONSECUTIVE_FAILURES@,
        LAST_ERROR@ != CONSECUTIVE_FAILURES@,
{
    reveal_strlit("last_success_at");
    reveal_strlit("last_error_at");
    reveal_strlit("last_error");
    reveal_strlit("consecutive_failures");
    assert(LAST_SUCCESS_AT@.len() != LAST_ERROR_AT@.len());
    assert(LAST_SUCCESS_AT@.len() != LAST_ERROR@.len());
    assert(LAST_SUCCESS_AT@.len() != CONSECUTIVE_FAILURES@.len());
    assert(LAST_ERROR_AT@.len() != LAST_ERROR@.len());
    assert(LAST_ERROR_AT@.len() != CONSECUTIVE_FAILURES@.len());
    assert(LAST_ERROR@.len() != CONSECUTIVE_FAILURES@.len());
}

/// A successful poll clears the error: its metadata reports no error, no error
/// time and no failures, and the time of the poll as the last success.
pub proof fn lemma_success_clears_errors(
    previous: Option<Map<Seq<char>, MetaView>>,
    overlay: Map<Seq<char>, MetaView>,
    now: Seq<char>,
)
    ensures
        meta_error(success_meta(previous, overlay, now)) is None,
        meta_time(success_meta(previous, overlay, now), LAST_ERROR_AT@) is None,
        meta_failures(success_meta(previous, overlay, now)) == 0,
        meta_time(success_meta(previous, overlay, now), LAST_SUCCESS_AT@) == rfc3339_parsed(now),
{
    lemma_keys_distinct();
}

/// A failed poll is reported: its metadata gives the error (where it is not
/// empty), the failure count and the time of the poll, and keeps the time of
/// the last success.
pub proof fn lemma_failure_is_reported(
    previous: Option<Map<Seq<char>, MetaView>>,
    overlay: Map<Seq<char>, MetaView>,
    error: Seq<char>,
    failures: u32,
    now: Seq<char>,
)
    ensures
        meta_error(failure_meta(previous, overlay, error, failures, now)) == (if error.len() > 0 {
            Some(error)
        } else {
            None
        }),
        meta_failures(failure_meta(previous, overlay, error, failures, now)) == failures,
        meta_time(failure_meta(previous, overlay, error, failures, now), LAST_ERROR_AT@)
            == rfc3339_parsed(now),
        meta_time(failure_meta(previous, overlay, error, failures, now), LAST_SUCCESS_AT@)
            == meta_time(merged(previous, overlay), LAST_SUCCESS_AT@),
{
    lemma_keys_distinct();
}


/// A cursor row as the store holds it.
#[derive(Debug, Clone, PartialEq, Eq)]
pub struct StoredCursor {
    pub cursor_value: Option<String>,
    pub poll_after: Option<UtcTime>,
    pub metadata: Metadata,
}

/// The state of one cursor, with the health its metadata reports.
#[derive(Debug, Clone, PartialEq, Eq)]
pub struct SourceCursor {
    pub cursor_value: Option<String>,
    pub poll_after: Option<UtcTime>,
    pub last_success_at: Option<UtcTime>,
    pub last_error_at: Option<UtcTime>,
    pub last_error: Option<String>,
    pub consecutive_failures: u32,
}

/// What to write to a cursor row.
#[derive(Debug, Clone, PartialEq, Eq)]
pub struct CursorWrite {
    pub cursor_value: Option<String>,
    pub poll_after: Option<UtcTime>,
    pub metadata: Metadata,
}

/// The metadata of an optional stored cursor.
pub open spec fn stored_meta(c: Option<&StoredCursor>) -> Option<Map<Seq<char>, MetaView>> {
    match c {
        Some(v) => Some(v.metadata@),
        None => None,
    }
}

/// The cursor value of an optional stored cursor.
pub open spec fn stored_value(c: Option<&StoredCursor>) -> Option<Seq<char>> {
    match c {
        Some(v) => opt_view(v.cursor_value),
        None => None,
    }
}

fn clone_text(o: &Option<String>) -> (r: Option<String>)
    ensures
        opt_view(r) == opt_view(*o),
{
    match o {
        Some(s) => Some(s.clone()),
        None => None,
    }
}

fn metadata_of(c: Option<&StoredCursor>) -> (r: Option<&Metadata>)
    ensures
        opt_meta(r) == stored_meta(c),
{
    match c {
        Some(v) => Some(&v.metadata),
        None => None,
    }
}

/// What a successful poll at `now` writes: the new cursor value and poll hint,
/// and the metadata with the error cleared.
pub fn cursor_success_write(
    previous: Option<&StoredCursor>,
    cursor_value: Option<String>,
    poll_after: Option<UtcTime>,
    overlay: &Metadata,
    now: &str,
) -> (r: CursorWrite)
    ensures
        r.cursor_value == cursor_value,
        r.poll_after == poll_after,
        r.metadata@ == success_meta(stored_meta(previous), overlay@, now@),
{
    let metadata = success_metadata(metadata_of(previous), overlay, now);
    CursorWrite { cursor_value, poll_after, metadata }
}

/// What a failed poll at `now` writes: the cursor value stays as it was, the
/// poll hint is the new one, and the metadata records the error.
pub fn cursor_failure_write(
    previous: Option<&StoredCursor>,
    error: &str,
    failures: u32,
    poll_after: Option<UtcTime>,
    overlay: &Metadata,
    now: &str,
) -> (r: CursorWrite)
    ensures
        opt_view(r.cursor_value) == stored_value(previous),
        r.poll_after == poll_after,
        r.metadata@ == failure_meta(stored_meta(previous), overlay@, error@, failures, now@),
{
    let cursor_value = match previous {
        Some(c) => clone_text(&c.cursor_value),
        None => None,
    };
    let metadata = failure_metadata(metadata_of(previous), overlay, error, failures, now);
    CursorWrite { cursor_value, poll_after, metadata }
}

/// `s` is the state of the stored cursor `c`.
pub open spec fn cursor_state_of(s: SourceCursor, c: StoredCursor) -> bool {
    &&& opt_view(s.cursor_value) == opt_view(c.cursor_value)
    &&& s.poll_after == c.poll_after
    &&& opt_instant(s.last_success_at) == meta_time(c.metadata@, LAST_SUCCESS_AT@)
    &&& opt_instant(s.last_error_at) == meta_time(c.metadata@, LAST_ERROR_AT@)
    &&& opt_view(s.last_error) == meta_error(c.metadata@)
    &&& s.consecutive_failures == meta_failures(c.metadata@)
}

/// The state of a stored cursor, with the health its metadata reports.
pub fn source_cursor_from_stored(cursor: StoredCursor) -> (r: SourceCursor)
    ensures
        cursor_state_of(r, cursor),
{
    let health = cursor_health(&cursor.metadata);
    SourceCursor {
        cursor_value: cursor.cursor_value,
        poll_after: cursor.poll_after,
        last_success_at: health.last_success_at,
        last_error_at: health.last_error_at,
        last_error: health.last_error,
        consecutive_failures: health.consecutive_failures,
    }
}

/// `s` is the status of `account` with `unread` unread events, for the cursor
/// `cursor` (for none: no cursor state and no health).
pub open spec fn status_of(
    s: SourceStatus,
    account: Account,
    unread: i64,
    cursor: Option<(String, StoredCursor)>,
) -> bool {
    &&& s.source@ == account.source@
    &&& s.label@ == account.label@
    &&& s.enabled == account.enabled
    &&& s.unread_count == unread
    &&& match cursor {
        None => {
            &&& s.cursor_key is None
            &&& s.last_cursor is None
            &&& s.poll_after is None
            &&& s.last_success_at is None
            &&& s.last_error_at is None
            &&& s.last_error is None
            &&& s.consecutive_failures == 0
        },
        Some((key, c)) => {
            &&& opt_view(s.cursor_key) == Some(key@)
            &&& opt_view(s.last_cursor) == opt_view(c.cursor_value)
            &&& s.poll_after == c.poll_after
            &&& opt_instant(s.last_success_at) == meta_time(c.metadata@, LAST_SUCCESS_AT@)
            &&& opt_instant(s.last_error_at) == meta_time(c.metadata@, LAST_ERROR_AT@)
            &&& opt_view(s.last_error) == meta_error(c.metadata@)
            &&& s.consecutive_failures == meta_failures(c.metadata@)
        },
    }
}

/// The status of an account for one of its cursors, or for none.
pub fn source_status_from_cursor(
    account: &Account,
    unread_count: i64,
    cursor: Option<(String, StoredCursor)>,
) -> (r: SourceStatus)
    ensures
        status_of(r, *account, unread_count, cursor),
{
    let source = account.source.clone();
    let label = account.label.clone();
    match cursor {
        None => SourceStatus {
            source,
            label,
            enabled: account.enabled,
            unread_count,
            cursor_key: None,
            last_cursor: None,
            poll_after: None,
            last_success_at: None,
            last_error_at: None,
            last_error: None,
            consecutive_failures: 0,
        },
        Some((key, c)) => {
            let health = cursor_health(&c.metadata);
            SourceStatus {
                source,
                label,
                enabled: account.enabled,
                unread_count,
                cursor_key: Some(key),
                last_cursor: c.cursor_value,
                poll_after: c.poll_after,
                last_success_at: health.last_success_at,
                last_error_at: health.last_error_at,
                last_error: health.last_error,
                consecutive_failures: health.consecutive_failures,
            }
        },
    }
}

/// An account with its unread count and its cursors, as the store reads them.
#[derive(Debug, Clone, PartialEq, Eq)]
pub struct AccountSnapshot {
    pub account: Account,
    pub unread_count: i64,
    pub cursors: Vec<(String, StoredCursor)>,
}

/// Where each status comes from: the index of its account and, where it has
/// one, the index of its cursor. An account without cursors has one status;
/// an account with cursors has one for each of them, in order.
pub open spec fn origins(snaps: Seq<AccountSnapshot>) -> Seq<(int, Option<int>)>
    decreases snaps.len(),
{
    if snaps.len() == 0 {
        seq![]
    } else {
        let a = snaps.len() - 1;
        let n = snaps.last().cursors@.len();
        origins(snaps.drop_last()) + if n == 0 {
            seq![(a, None)]
        } else {
            Seq::new(n, |j: int| (a, Some(j)))
        }
    }
}

/// The status that an origin stands for.
pub open spec fn status_from(
    s: SourceStatus,
    snaps: Seq<AccountSnapshot>,
    origin: (int, Option<int>),
) -> bool {
    let snap = snaps[origin.0];
    status_of(
        s,
        snap.account,
        snap.unread_count,
        match origin.1 {
            Some(j) => Some(snap.cursors@[j]),
            None => None,
        },
    )
}

proof fn lemma_origins_prefix(snaps: Seq<AccountSnapshot>, k: int)
    requires
        0 <= k < snaps.len(),
    ensures
        origins(snaps.take(k + 1)) == origins(snaps.take(k)) + (if snaps[k].cursors@.len() == 0 {
            seq![(k, None::<int>)]
        } else {
            Seq::new(snaps[k].cursors@.len(), |j: int| (k, Some(j)))
        }),
{
    assert(snaps.take(k + 1).drop_last() =~= snaps.take(k));
    assert(snaps.take(k + 1).last() == snaps[k]);
}

/// The statuses of the accounts: one per cursor of each account, in order,
/// and one for an account without cursors.
pub fn statuses_from_snapshots(snapshots: Vec<AccountSnapshot>) -> (r: Vec<SourceStatus>)
    ensures
        r@.len() == origins(snapshots@).len(),
        forall|i: int|
            0 <= i < r@.len() ==> status_from(#[trigger] r@[i], snapshots@, origins(snapshots@)[i]),
{
    let ghost all = snapshots@;
    let n = snapshots.len();
    let mut rest = snapshots;
    let mut out: Vec<SourceStatus> = Vec::new();
    let mut k: usize = 0;
    assert(all.skip(0) =~= all);
    assert(all.take(0) =~= Seq::<AccountSnapshot>::empty());
    while k < n
        invariant
            k <= n,
            n == all.len(),
            all == snapshots@,
            rest@ == all.skip(k as int),
            out@.len() == origins(all.take(k as int)).len(),
            forall|i: int|
                0 <= i < out@.len() ==> status_from(
                    #[trigger] out@[i],
                    all,
                    origins(all.take(k as int))[i],
                ),
            forall|i: int|
                0 <= i < origins(all.take(k as int)).len() ==> 0 <= #[trigger] origins(
                    all.take(k as int),
                )[i].0 < k,
        decreases n - k,
    {
        proof {
            lemma_origins_prefix(all, k as int);
        }
        assert(rest@[0] == all[k as int]);
        let snap = rest.remove(0);
        assert(rest@ =~= all.skip(k + 1));
        let ghost before = out@;
        let ghost prev = origins(all.take(k as int));
        push_statuses(&mut out, snap, Ghost(k as int));
        proof {
            let next = origins(all.take(k + 1));
            assert forall|i: int| 0 <= i < out@.len() implies status_from(
                #[trigger] out@[i],
                all,
                next[i],
            ) by {
                if i < before.len() {
                    assert(next[i] == prev[i]);
                    assert(out@[i] == before[i]);
                } else {
                    let j = i - before.len();
                    if all[k as int].cursors@.len() == 0 {
                        assert(next[i] == (k as int, None::<int>));
                    } else {
                        assert(next[i] == (k as int, Some(j)));
                        assert(out@[before.len() + j] == out@[i]);
                    }
                }
            }
            assert forall|i: int| 0 <= i < next.len() implies 0 <= #[trigger] next[i].0 < k + 1 by {
                if i < prev.len() {
                    assert(next[i] == prev[i]);
                }
            }
        }
        k += 1;
    }
    assert(all.take(n as int) =~= all);
    out
}

fn push_statuses(out: &mut Vec<SourceStatus>, snap: AccountSnapshot, Ghost(k): Ghost<int>)
    ensures
        final(out)@.len() == old(out)@.len() + if snap.cursors@.len() == 0 {
            1
        } else {
            snap.cursors@.len()
        },
        forall|i: int| 0 <= i < old(out)@.len() ==> #[trigger] final(out)@[i] == old(out)@[i],
        snap.cursors@.len() == 0 ==> status_of(
            final(out)@[old(out)@.len() as int],
            snap.account,
            snap.unread_count,
            None,
        ),
        forall|j: int|
            0 <= j < snap.cursors@.len() ==> status_of(
                #[trigger] final(out)@[old(out)@.len() + j],
                snap.account,
                snap.unread_count,
                Some(snap.cursors@[j]),
            ),
{
    let AccountSnapshot { account, unread_count, cursors } = snap;
    if cursors.len() == 0 {
        out.push(source_status_from_cursor(&account, unread_count, None));
        return;
    }
    let ghost base = old(out)@;
    let ghost cs = cursors@;
    let m = cursors.len();
    let mut rest = cursors;
    let mut j: usize = 0;
    assert(cs.skip(0) =~= cs);
    while j < m
        invariant
            j <= m,
            m == cs.len(),
            rest@ == cs.skip(j as int),
            out@.len() == base.len() + j,
            forall|i: int| 0 <= i < base.len() ==> #[trigger] out@[i] == base[i],
            forall|i: int|
                0 <= i < j ==> status_of(
                    #[trigger] out@[base.len() + i],
                    account,
                    unread_count,
                    Some(cs[i]),
                ),
        decreases m - j,
    {
        assert(rest@[0] == cs[j as int]);
        let c = rest.remove(0);
        assert(rest@ =~= cs.skip(j + 1));
        let status = source_status_from_cursor(&account, unread_count, Some(c));
        out.push(status);
        j += 1;
    }
}

} // verus!
