//! The state behind the terminal UI: the events shown, the selection, and
//! the read and source filters.
use vstd::prelude::*;
use vstd::string::*;

use crate::config::opt_view;
use crate::model::Event;
use crate::text::{is_blank, owned, push_str, str_eq, trim};
use crate::time::{format_utc, utc_formatted, UtcTime};

verus! {

/// How many events the UI asks the daemon for.
pub const EVENT_LIMIT: usize = 100;

/// What the UI shows and how it filters.
#[derive(Debug)]
pub struct TuiState {
    pub events: Vec<Event>,
    pub selected: usize,
    pub unread_only: bool,
    pub source_filter: Option<String>,
    pub available_sources: Vec<String>,
}

/// Index of the first event with `id`, or the number of events when none has it.
pub open spec fn event_position(events: Seq<Event>, id: i64) -> int
    decreases events.len(),
{
    if events.len() == 0 {
        0
    } else if events[0].id == id {
        0
    } else {
        1 + event_position(events.drop_first(), id)
    }
}

proof fn lemma_event_position_at(events: Seq<Event>, id: i64, k: int)
    requires
        0 <= k <= events.len(),
        k < events.len() ==> events[k].id == id,
        forall|j: int| 0 <= j < k ==> events[j].id != id,
    ensures
        event_position(events, id) == k,
    decreases events.len(),
{
    if events.len() > 0 && events[0].id != id {
        lemma_event_position_at(events.drop_first(), id, k - 1);
    }
}

/// Index of the first source equal to `t`, or the number of sources when none is.
pub open spec fn source_position(sources: Seq<Seq<char>>, t: Seq<char>) -> int
    decreases sources.len(),
{
    if sources.len() == 0 {
        0
    } else if sources[0] == t {
        0
    } else {
        1 + source_position(sources.drop_first(), t)
    }
}

proof fn lemma_source_position_at(sources: Seq<Seq<char>>, t: Seq<char>, k: int)
    requires
        0 <= k <= sources.len(),
        k < sources.len() ==> sources[k] == t,
        forall|j: int| 0 <= j < k ==> sources[j] != t,
    ensures
        source_position(sources, t) == k,
    decreases sources.len(),
{
    if sources.len() > 0 && sources[0] != t {
        lemma_source_position_at(sources.drop_first(), t, k - 1);
    }
}

/// The selection after the events are replaced by `events`: the event that
/// was selected (its first occurrence), where it is still there; else the same
/// index, clamped to the last event; zero for no events.
pub open spec fn selection_after(prev_id: Option<i64>, prev_index: int, events: Seq<Event>) -> int {
    if events.len() == 0 {
        0
    } else if prev_id is Some && event_position(events, prev_id->Some_0) < events.len() {
        event_position(events, prev_id->Some_0)
    } else if prev_index >= events.len() {
        events.len() - 1
    } else {
        prev_index
    }
}

/// The non-empty sources, each once, in the order they first come.
pub open spec fn distinct_sources(sources: Seq<Seq<char>>) -> Seq<Seq<char>>
    decreases sources.len(),
{
    if sources.len() == 0 {
        seq![]
    } else {
        let d = distinct_sources(sources.drop_last());
        if sources.last().len() > 0 && !d.contains(sources.last()) {
            d.push(sources.last())
        } else {
            d
        }
    }
}

/// No source comes twice.
pub open spec fn no_repeats(sources: Seq<Seq<char>>) -> bool {
    forall|i: int, j: int| 0 <= i < j < sources.len() ==> sources[i] != sources[j]
}

/// The filter after `s` is pressed: from all to the first source, from each
/// source to the next, from the last (or an unknown one) back to all.
pub open spec fn cycled(filter: Option<Seq<char>>, sources: Seq<Seq<char>>) -> Option<Seq<char>> {
    if sources.len() == 0 {
        None
    } else {
        match filter {
            None => Some(sources[0]),
            Some(current) => {
                let p = source_position(sources, current);
                if p < sources.len() && p + 1 < sources.len() {
                    Some(sources[p + 1])
                } else {
                    None
                }
            },
        }
    }
}

/// The filter after `s` is pressed `k` times.
pub open spec fn cycled_times(
    filter: Option<Seq<char>>,
    sources: Seq<Seq<char>>,
    k: nat,
) -> Option<Seq<char>>
    decreases k,
{
    if k == 0 {
        filter
    } else {
        cycled(cycled_times(filter, sources, (k - 1) as nat), sources)
    }
}

impl TuiState {
    /// The selection points at an event, or is zero when there are none.
    pub open spec fn wf(&self) -> bool {
        if self.events@.len() == 0 {
            self.selected == 0
        } else {
            self.selected < self.events@.len()
        }
    }

    /// The ID of the selected event, if the selection points at one.
    pub open spec fn selected_id(&self) -> Option<i64> {
        if self.selected < self.events@.len() {
            Some(self.events@[self.selected as int].id)
        } else {
            None
        }
    }

    /// Replaces the events; the selection follows the selected event where it
    /// is still there, else stays at its index as far as the events reach.
    pub fn set_events(&mut self, events: Vec<Event>)
        ensures
            final(self).events@ == events@,
            final(self).selected == selection_after(
                old(self).selected_id(),
                old(self).selected as int,
                events@,
            ),
            final(self).wf(),
            final(self).unread_only == old(self).unread_only,
            final(self).source_filter == old(self).source_filter,
            final(self).available_sources == old(self).available_sources,
    {
        let previous_id = self.selected_event_id();
        let previous_index = self.selected;
        self.events = events;
        let n = self.events.len();
        if n == 0 {
            self.selected = 0;
            return;
        }
        let mut found = n;
        match previous_id {
            Some(id) => {
                let mut i: usize = 0;
                while i < n && self.events[i].id != id
                    invariant
                        i <= n,
                        n == self.events@.len(),
                        forall|j: int| 0 <= j < i ==> self.events@[j].id != id,
                    decreases n - i,
                {
                    i += 1;
                }
                proof {
                    lemma_event_position_at(self.events@, id, i as int);
                }
                found = i;
            },
            None => {},
        }
        if found < n {
            self.selected = found;
        } else if previous_index >= n {
            self.selected = n - 1;
        } else {
            self.selected = previous_index;
        }
    }

    /// Keeps the non-empty sources, each once, in order; a source filter that
    /// is no longer among them is dropped.
    pub fn set_available_sources(&mut self, sources: Vec<String>)
        ensures
            final(self).available_sources.deep_view() == distinct_sources(sources.deep_view()),
            final(self).source_filter == (match old(self).source_filter {
                Some(f) => if distinct_sources(sources.deep_view()).contains(f@) {
                    Some(f)
                } else {
                    None::<String>
                },
                None => None,
            }),
            final(self).events == old(self).events,
            final(self).selected == old(self).selected,
            final(self).unread_only == old(self).unread_only,
    {
        let ghost all = sources.deep_view();
        let ghost items = sources@;
        let n = sources.len();
        let mut rest = sources;
        let mut kept: Vec<String> = Vec::new();
        let mut k: usize = 0;
        assert(items.skip(0) =~= items);
        assert(all.take(0) =~= Seq::<Seq<char>>::empty());
        while k < n
            invariant
                k <= n,
                n == all.len(),
                all == sources.deep_view(),
                items == sources@,
                rest@ == items.skip(k as int),
                kept.deep_view() == distinct_sources(all.take(k as int)),
            decreases n - k,
        {
            assert(all.take(k + 1).drop_last() =~= all.take(k as int));
            assert(all.take(k + 1).last() == all[k as int]);
            assert(rest@[0] == items[k as int]);
            let s = rest.remove(0);
            assert(rest@ =~= items.skip(k + 1));
            assert(s@ == all[k as int]);
            if s.as_str().unicode_len() > 0 && !contains_text(&kept, s.as_str()) {
                let ghost before = kept.deep_view();
                kept.push(s);
                assert(kept.deep_view() =~= before.push(all[k as int]));
            }
            k += 1;
        }
        assert(all.take(n as int) =~= all);
        self.available_sources = kept;
        let keep = match &self.source_filter {
            Some(f) => contains_text(&self.available_sources, f.as_str()),
            None => true,
        };
        if !keep {
            self.source_filter = None;
        }
    }

    /// Moves the selection down, stopping at the last event.
    pub fn next(&mut self)
        requires
            old(self).events@.len() > 0 ==> old(self).selected < usize::MAX,
        ensures
            final(self).selected == (if old(self).events@.len() == 0 {
                old(self).selected as int
            } else if old(self).selected + 1 < old(self).events@.len() - 1 {
                old(self).selected + 1
            } else {
                old(self).events@.len() - 1
            }),
            old(self).wf() ==> final(self).wf(),
            final(self).events == old(self).events,
            final(self).unread_only == old(self).unread_only,
            final(self).source_filter == old(self).source_filter,
            final(self).available_sources == old(self).available_sources,
    {
        let n = self.events.len();
        if n > 0 {
            let up = self.selected + 1;
            self.selected = if up < n - 1 {
                up
            } else {
                n - 1
            };
        }
    }

    /// Moves the selection up, stopping at the first event.
    pub fn previous(&mut self)
        ensures
            final(self).selected == (if old(self).selected == 0 {
                0
            } else {
                old(self).selected - 1
            }),
            old(self).wf() ==> final(self).wf(),
            final(self).events == old(self).events,
            final(self).unread_only == old(self).unread_only,
            final(self).source_filter == old(self).source_filter,
            final(self).available_sources == old(self).available_sources,
    {
        if self.selected > 0 {
            self.selected = self.selected - 1;
        }
    }

    /// The ID of the selected event.
    pub fn selected_event_id(&self) -> (r: Option<i64>)
        ensures
            r == self.selected_id(),
    {
        if self.selected < self.events.len() {
            Some(self.events[self.selected].id)
        } else {
            None
        }
    }

    /// The selected event.
    pub fn selected_event(&self) -> (r: Option<&Event>)
        ensures
            match r {
                Some(e) => self.selected < self.events@.len() && *e == self.events@[self.selected as int],
                None => self.selected >= self.events@.len(),
            },
    {
        if self.selected < self.events.len() {
            Some(&self.events[self.selected])
        } else {
            None
        }
    }

    /// Moves the source filter on: from all to the first source, from each
    /// source to the next, and from the last back to all.
    pub fn cycle_source_filter(&mut self)
        ensures
            opt_view(final(self).source_filter) == cycled(
                opt_view(old(self).source_filter),
                old(self).available_sources.deep_view(),
            ),
            final(self).events == old(self).events,
            final(self).selected == old(self).selected,
            final(self).unread_only == old(self).unread_only,
            final(self).available_sources == old(self).available_sources,
    {
        let n = self.available_sources.len();
        if n == 0 {
            self.source_filter = None;
            return;
        }
        let next = match &self.source_filter {
            None => Some(self.available_sources[0].clone()),
            Some(current) => {
                let p = text_position(&self.available_sources, current.as_str());
                if p < n && p + 1 < n {
                    Some(self.available_sources[p + 1].clone())
                } else {
                    None
                }
            },
        };
        self.source_filter = next;
    }

    /// Switches between unread events only and all events.
    pub fn toggle_unread_only(&mut self)
        ensures
            final(self).unread_only == !old(self).unread_only,
            final(self).events == old(self).events,
            final(self).selected == old(self).selected,
            final(self).source_filter == old(self).source_filter,
            final(self).available_sources == old(self).available_sources,
    {
        self.unread_only = !self.unread_only;
    }

    /// The source filter as shown: the source, or `all`.
    pub fn source_filter_label(&self) -> (r: &str)
        ensures
            r@ == match self.source_filter {
                Some(s) => s@,
                None => "all"@,
            },
    {
        match &self.source_filter {
            Some(s) => s.as_str(),
            None => "all",
        }
    }

    /// The read filter as shown: `unread` or `all`.
    pub fn read_filter_label(&self) -> (r: &str)
        ensures
            r@ == if self.unread_only {
                "unread"@
            } else {
                "all"@
            },
    {
        if self.unread_only {
            "unread"
        } else {
            "all"
        }
    }

    /// The source to ask the daemon for.
    pub fn source_filter_for_request(&self) -> (r: Option<String>)
        ensures
            opt_view(r) == opt_view(self.source_filter),
    {
        match &self.source_filter {
            Some(s) => Some(s.clone()),
            None => None,
        }
    }
}

impl Default for TuiState {
    /// No events, unread events only, all sources.
    fn default() -> (r: Self)
        ensures
            r.events@.len() == 0,
            r.selected == 0,
            r.unread_only,
            r.source_filter is None,
            r.available_sources@.len() == 0,
    {
        TuiState {
            events: Vec::new(),
            selected: 0,
            unread_only: true,
            source_filter: None,
            available_sources: Vec::new(),
        }
    }
}

/// The keys the UI acts on.
#[derive(Debug, Clone, Copy, PartialEq, Eq, Structural)]
pub enum TuiKey {
    Quit,
    Down,
    Up,
    Refresh,
    MarkRead,
    ToggleUnread,
    CycleSource,
    Other,
}

/// The key that a character stands for: `q` quits, `j` and `k` move, `r`
/// refreshes, `m` marks read, `u` switches the read filter, `s` the source.
pub fn key_for_char(c: char) -> (r: TuiKey)
    ensures
        r == (if c == 'q' {
            TuiKey::Quit
        } else if c == 'j' {
            TuiKey::Down
        } else if c == 'k' {
            TuiKey::Up
        } else if c == 'r' {
            TuiKey::Refresh
        } else if c == 'm' {
            TuiKey::MarkRead
        } else if c == 'u' {
            TuiKey::ToggleUnread
        } else if c == 's' {
            TuiKey::CycleSource
        } else {
            TuiKey::Other
        }),
{
    if c == 'q' {
        TuiKey::Quit
    } else if c == 'j' {
        TuiKey::Down
    } else if c == 'k' {
        TuiKey::Up
    } else if c == 'r' {
        TuiKey::Refresh
    } else if c == 'm' {
        TuiKey::MarkRead
    } else if c == 'u' {
        TuiKey::ToggleUnread
    } else if c == 's' {
        TuiKey::CycleSource
    } else {
        TuiKey::Other
    }
}

/// What the UI loop does after a key.
#[derive(Debug, Clone, Copy, PartialEq, Eq, Structural)]
pub enum TuiCommand {
    /// Leave the UI.
    Quit,
    /// Only draw again.
    Redraw,
    /// Fetch the sources, then the events.
    RefreshAll,
    /// Fetch the events.
    RefreshEvents,
    /// Mark this event read, then fetch the events.
    MarkRead { id: i64 },
}

impl TuiState {
    /// Acts on a key: moves the selection or changes a filter, and says what
    /// the loop has to fetch or send.
    pub fn handle_key(&mut self, key: TuiKey) -> (r: TuiCommand)
        requires
            old(self).wf(),
        ensures
            final(self).wf(),
            final(self).events == old(self).events,
            key == TuiKey::Quit ==> r == TuiCommand::Quit && *final(self) == *old(self),
            key == TuiKey::Down ==> r == TuiCommand::Redraw && final(self).selected == (if old(
                self,
            ).events@.len() == 0 {
                0
            } else if old(self).selected + 1 < old(self).events@.len() - 1 {
                old(self).selected + 1
            } else {
                old(self).events@.len() - 1
            }),
            key == TuiKey::Up ==> r == TuiCommand::Redraw && final(self).selected == (if old(
                self,
            ).selected == 0 {
                0
            } else {
                old(self).selected - 1
            }),
            (key == TuiKey::Down || key == TuiKey::Up) ==> final(self).unread_only == old(
                self,
            ).unread_only && final(self).source_filter == old(self).source_filter
                && final(self).available_sources == old(self).available_sources,
            key == TuiKey::ToggleUnread ==> final(self).selected == old(self).selected
                && final(self).source_filter == old(self).source_filter
                && final(self).available_sources == old(self).available_sources,
            key == TuiKey::CycleSource ==> final(self).selected == old(self).selected
                && final(self).unread_only == old(self).unread_only
                && final(self).available_sources == old(self).available_sources,
            key == TuiKey::Refresh ==> r == TuiCommand::RefreshAll && *final(self) == *old(self),
            key == TuiKey::MarkRead ==> *final(self) == *old(self) && r == match old(
                self,
            ).selected_id() {
                Some(id) => TuiCommand::MarkRead { id },
                None => TuiCommand::Redraw,
            },
            key == TuiKey::ToggleUnread ==> r == TuiCommand::RefreshEvents
                && final(self).unread_only == !old(self).unread_only,
            key == TuiKey::CycleSource ==> r == TuiCommand::RefreshEvents && opt_view(
                final(self).source_filter,
            ) == cycled(
                opt_view(old(self).source_filter),
                old(self).available_sources.deep_view(),
            ),
            key == TuiKey::Other ==> r == TuiCommand::Redraw && *final(self) == *old(self),
    {
        match key {
            TuiKey::Quit => TuiCommand::Quit,
            TuiKey::Down => {
                let n = self.events.len();
                assert(n == self.events@.len());
                self.next();
                TuiCommand::Redraw
            },
            TuiKey::Up => {
                self.previous();
                TuiCommand::Redraw
            },
            TuiKey::Refresh => TuiCommand::RefreshAll,
            TuiKey::MarkRead => match self.selected_event_id() {
                Some(id) => TuiCommand::MarkRead { id },
                None => TuiCommand::Redraw,
            },
            TuiKey::ToggleUnread => {
                self.toggle_unread_only();
                TuiCommand::RefreshEvents
            },
            TuiKey::CycleSource => {
                self.cycle_source_filter();
                TuiCommand::RefreshEvents
            },
            TuiKey::Other => TuiCommand::Redraw,
        }
    }
}

/// How the event list shows a time.
pub const SHORT_TIME_PATTERN: &'static str = "%m-%d %H:%M";

/// How the detail pane shows a time.
pub const FULL_TIME_PATTERN: &'static str = "%Y-%m-%d %H:%M:%S UTC";

/// A time in `pattern`, `-` where `chrono` has no date for it.
pub open spec fn time_text(t: UtcTime, pattern: Seq<char>) -> Seq<char> {
    match utc_formatted(t.secs, t.nanos, pattern) {
        Some(s) => s,
        None => "-"@,
    }
}

fn format_time(t: UtcTime, pattern: &str) -> (r: String)
    requires
        pattern@ == SHORT_TIME_PATTERN@ || pattern@ == FULL_TIME_PATTERN@,
    ensures
        r@ == time_text(t, pattern@),
{
    match format_utc(t.secs, t.nanos, pattern) {
        Some(s) => s,
        None => owned("-"),
    }
}

/// An optional value in the detail pane: `-` when absent or blank.
pub open spec fn detail_value(v: Option<String>) -> Seq<char> {
    match v {
        Some(s) => if trim(s@).len() > 0 {
            s@
        } else {
            "-"@
        },
        None => "-"@,
    }
}

fn detail_text(value: &Option<String>) -> (r: String)
    ensures
        r@ == detail_value(*value),
{
    match value {
        Some(s) => if is_blank(s.as_str()) {
            owned("-")
        } else {
            s.clone()
        },
        None => owned("-"),
    }
}

/// The read state in the detail pane: `unread`, or when it was read.
pub open spec fn read_state_text(e: Event) -> Seq<char> {
    match e.read_at {
        Some(t) => "read at "@ + time_text(t, FULL_TIME_PATTERN@),
        None => "unread"@,
    }
}

/// The read state of an event as the detail pane shows it.
pub fn format_read_state(event: &Event) -> (r: String)
    ensures
        r@ == read_state_text(*event),
{
    match event.read_at {
        Some(t) => {
            let mut r = owned("read at ");
            let when = format_time(t, FULL_TIME_PATTERN);
            push_str(&mut r, when.as_str());
            r
        },
        None => owned("unread"),
    }
}

/// The labelled fields of the detail pane, in order.
pub open spec fn detail_spec(e: Event) -> Seq<(Seq<char>, Seq<char>)> {
    seq![
        ("Title"@, e.title@),
        ("Body"@, detail_value(e.body)),
        ("Source"@, e.source@),
        ("Reason"@, detail_value(e.reason)),
        ("Actor"@, detail_value(e.actor)),
        ("URL"@, detail_value(e.url)),
        ("Occurred"@, time_text(e.occurred_at, FULL_TIME_PATTERN@)),
        ("Read state"@, read_state_text(e)),
    ]
}

/// The views of label and value pairs.
pub open spec fn pair_views(v: Seq<(String, String)>) -> Seq<(Seq<char>, Seq<char>)> {
    Seq::new(v.len(), |i: int| (v[i].0@, v[i].1@))
}

/// The labelled fields that the detail pane shows for an event.
pub fn detail_fields(event: &Event) -> (r: Vec<(String, String)>)
    ensures
        pair_views(r@) == detail_spec(*event),
{
    let mut r: Vec<(String, String)> = Vec::new();
    r.push((owned("Title"), event.title.clone()));
    r.push((owned("Body"), detail_text(&event.body)));
    r.push((owned("Source"), event.source.clone()));
    r.push((owned("Reason"), detail_text(&event.reason)));
    r.push((owned("Actor"), detail_text(&event.actor)));
    r.push((owned("URL"), detail_text(&event.url)));
    r.push((owned("Occurred"), format_time(event.occurred_at, FULL_TIME_PATTERN)));
    r.push((owned("Read state"), format_read_state(event)));
    assert(pair_views(r@) =~= detail_spec(*event));
    r
}

/// What a row of the event list shows: `*` for unread (else a space), the
/// source in brackets, the short time, the title.
pub open spec fn row_spec(e: Event) -> (Seq<char>, Seq<char>, Seq<char>, Seq<char>) {
    (
        if e.read_at is Some {
            " "@
        } else {
            "*"@
        },
        "["@ + e.source@ + "]"@,
        time_text(e.occurred_at, SHORT_TIME_PATTERN@),
        e.title@,
    )
}

/// The parts of an event's row in the list.
pub fn list_row(event: &Event) -> (r: (String, String, String, String))
    ensures
        (r.0@, r.1@, r.2@, r.3@) == row_spec(*event),
{
    let marker = if event.read_at.is_some() {
        owned(" ")
    } else {
        owned("*")
    };
    let mut tag = owned("[");
    push_str(&mut tag, event.source.as_str());
    push_str(&mut tag, "]");
    (marker, tag, format_time(event.occurred_at, SHORT_TIME_PATTERN), event.title.clone())
}

fn contains_text(v: &Vec<String>, s: &str) -> (r: bool)
    ensures
        r == v.deep_view().contains(s@),
{
    let mut i: usize = 0;
    while i < v.len()
        invariant
            i <= v.len(),
            forall|j: int| 0 <= j < i ==> v.deep_view()[j] != s@,
        decreases v.len() - i,
    {
        if str_eq(v[i].as_str(), s) {
            assert(v.deep_view()[i as int] == s@);
            return true;
        }
        i += 1;
    }
    false
}

fn text_position(v: &Vec<String>, s: &str) -> (r: usize)
    ensures
        r == source_position(v.deep_view(), s@),
{
    let mut i: usize = 0;
    while i < v.len() && !str_eq(v[i].as_str(), s)
        invariant
            i <= v.len(),
            forall|j: int| 0 <= j < i ==> v.deep_view()[j] != s@,
        decreases v.len() - i,
    {
        i += 1;
    }
    proof {
        lemma_source_position_at(v.deep_view(), s@, i as int);
    }
    i
}

proof fn lemma_event_position_found(events: Seq<Event>, id: i64, k: int)
    requires
        0 <= k < events.len(),
        events[k].id == id,
    ensures
        event_position(events, id) <= k,
        events[event_position(events, id)].id == id,
    decreases events.len(),
{
    if events[0].id != id {
        let rest = events.drop_first();
        lemma_event_position_found(rest, id, k - 1);
        lemma_event_position_range(rest, Some(id));
        let p = event_position(rest, id);
        assert(event_position(events, id) == p + 1);
        assert(rest[p] == events[p + 1]);
    }
}

/// After a refresh the event that was selected stays selected wherever it
/// still is among the new events; otherwise the selection keeps its index,
/// clamped to the last event. Either way it points at an event.
pub proof fn lemma_refresh_keeps_selection(
    prev_id: Option<i64>,
    prev_index: int,
    events: Seq<Event>,
)
    requires
        prev_index >= 0,
        events.len() > 0,
    ensures
        0 <= selection_after(prev_id, prev_index, events) < events.len(),
        (prev_id is Some && exists|k: int| 0 <= k < events.len() && #[trigger] events[k].id
            == prev_id->Some_0) ==> events[selection_after(prev_id, prev_index, events)].id
            == prev_id->Some_0,
        (prev_id is None || forall|k: int| 0 <= k < events.len() ==> #[trigger] events[k].id
            != prev_id->Some_0) ==> selection_after(prev_id, prev_index, events) == (if prev_index
            < events.len() {
            prev_index
        } else {
            events.len() - 1
        }),
{
    lemma_event_position_range(events, prev_id);
    if prev_id is Some {
        let id = prev_id->Some_0;
        if exists|k: int| 0 <= k < events.len() && #[trigger] events[k].id == id {
            let k = choose|k: int| 0 <= k < events.len() && #[trigger] events[k].id == id;
            lemma_event_position_found(events, id, k);
        } else {
            lemma_event_position_absent(events, id);
        }
    }
}

proof fn lemma_event_position_range(events: Seq<Event>, prev_id: Option<i64>)
    ensures
        prev_id is Some ==> 0 <= event_position(events, prev_id->Some_0) <= events.len(),
    decreases events.len(),
{
    if prev_id is Some && events.len() > 0 {
        lemma_event_position_range(events.drop_first(), prev_id);
    }
}

proof fn lemma_event_position_absent(events: Seq<Event>, id: i64)
    requires
        forall|k: int| 0 <= k < events.len() ==> #[trigger] events[k].id != id,
    ensures
        event_position(events, id) == events.len(),
    decreases events.len(),
{
    if events.len() > 0 {
        assert forall|k: int| 0 <= k < events.drop_first().len() implies #[trigger] events.drop_first()[k].id != id by {
            assert(events.drop_first()[k] == events[k + 1]);
        }
        lemma_event_position_absent(events.drop_first(), id);
    }
}

/// The sources kept for the filter are non-empty and come once each.
pub proof fn lemma_distinct_sources(sources: Seq<Seq<char>>)
    ensures
        no_repeats(distinct_sources(sources)),
        forall|i: int|
            0 <= i < distinct_sources(sources).len() ==> #[trigger] distinct_sources(sources)[i].len()
                > 0,
    decreases sources.len(),
{
    if sources.len() > 0 {
        lemma_distinct_sources(sources.drop_last());
    }
}

/// With sources that come once each, pressing `s` from all walks through the
/// sources in order and is back at all after one press more than there are
/// sources.
pub proof fn lemma_cycle_walks_sources(sources: Seq<Seq<char>>, k: nat)
    requires
        no_repeats(sources),
        k <= sources.len() + 1,
    ensures
        cycled_times(None, sources, k) == (if k == 0 || k == sources.len() + 1 {
            None::<Seq<char>>
        } else {
            Some(sources[k - 1])
        }),
    decreases k,
{
    if k > 0 {
        lemma_cycle_walks_sources(sources, (k - 1) as nat);
        if k >= 2 {
            lemma_source_position_at(sources, sources[k - 2], k - 2);
        }
    }
}

} // verus!
