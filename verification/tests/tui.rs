use signalpane::model::Event;
use signalpane::time::UtcTime;
use signalpane::tui::{
    detail_fields, format_read_state, key_for_char, list_row, TuiCommand, TuiKey, TuiState,
    EVENT_LIMIT,
};

fn event(id: i64, source: &str, read: bool) -> Event {
    Event {
        id,
        source: source.to_string(),
        account_id: 1,
        external_id: format!("{source}-{id}"),
        title: format!("title {id}"),
        body: Some(format!("body {id}")),
        url: Some(format!("https://example.com/{source}/{id}")),
        actor: Some("actor".to_string()),
        reason: Some("mention".to_string()),
        occurred_at: UtcTime { secs: 1_779_757_320 + id, nanos: 0 },
        received_at: UtcTime { secs: 1_779_757_380 + id, nanos: 0 },
        read_at: if read { Some(UtcTime { secs: 1_779_757_440 + id, nanos: 0 }) } else { None },
        raw_json: "{}".to_string(),
    }
}

#[test]
fn selection_stays_within_bounds() {
    let mut state = TuiState::default();
    state.set_events(vec![event(1, "github", false)]);
    state.next();
    assert_eq!(state.selected, 0);
    assert_eq!(state.selected_event_id(), Some(1));
    state.set_events(Vec::new());
    assert_eq!(state.selected_event_id(), None);
}

#[test]
fn refresh_preserves_selected_event_when_it_still_exists() {
    let mut state = TuiState::default();
    state.set_events(vec![event(1, "github", false), event(2, "slack", false)]);
    state.next();

    state.set_events(vec![event(3, "github", false), event(2, "slack", false)]);

    assert_eq!(state.selected, 1);
    assert_eq!(state.selected_event_id(), Some(2));
}

#[test]
fn refresh_clamps_to_same_index_when_selected_event_disappears() {
    let mut state = TuiState::default();
    state.set_events(vec![
        event(1, "github", false),
        event(2, "slack", false),
        event(3, "github", false),
    ]);
    state.next();

    state.set_events(vec![event(1, "github", false), event(3, "github", false)]);

    assert_eq!(state.selected, 1);
    assert_eq!(state.selected_event_id(), Some(3));
}

#[test]
fn cycles_source_filter_through_all_and_available_sources() {
    let mut state = TuiState::default();
    state.set_available_sources(vec![
        "github".to_string(),
        "slack".to_string(),
        "github".to_string(),
    ]);

    assert_eq!(state.source_filter.as_deref(), None);
    state.cycle_source_filter();
    assert_eq!(state.source_filter.as_deref(), Some("github"));
    state.cycle_source_filter();
    assert_eq!(state.source_filter.as_deref(), Some("slack"));
    state.cycle_source_filter();
    assert_eq!(state.source_filter.as_deref(), None);
}

#[test]
fn toggles_unread_only_filter() {
    let mut state = TuiState::default();

    assert!(state.unread_only);
    state.toggle_unread_only();
    assert!(!state.unread_only);
    state.toggle_unread_only();
    assert!(state.unread_only);
}

#[test]
fn previous_stops_at_first_and_clamps_to_last() {
    let mut state = TuiState::default();
    state.previous();
    assert_eq!(state.selected, 0);
    state.set_events(vec![event(1, "github", false), event(2, "github", true)]);
    state.next();
    state.next();
    state.next();
    assert_eq!(state.selected, 1);
    state.previous();
    state.previous();
    assert_eq!(state.selected, 0);
    assert_eq!(state.selected_event().map(|e| e.id), Some(1));
    state.set_events(vec![event(9, "slack", false)]);
    assert_eq!(state.selected_event_id(), Some(9));
}

#[test]
fn available_sources_drop_blanks_and_stale_filter() {
    let mut state = TuiState::default();
    state.set_available_sources(vec!["github".to_string(), "".to_string(), "slack".to_string()]);
    assert_eq!(state.available_sources, vec!["github".to_string(), "slack".to_string()]);
    state.cycle_source_filter();
    state.cycle_source_filter();
    assert_eq!(state.source_filter.as_deref(), Some("slack"));
    state.set_available_sources(vec!["slack".to_string()]);
    assert_eq!(state.source_filter.as_deref(), Some("slack"));
    state.set_available_sources(vec!["github".to_string()]);
    assert_eq!(state.source_filter, None);
    state.set_available_sources(Vec::new());
    state.cycle_source_filter();
    assert_eq!(state.source_filter, None);
}

#[test]
fn labels_and_request_filter() {
    let mut state = TuiState::default();
    assert_eq!(state.read_filter_label(), "unread");
    assert_eq!(state.source_filter_label(), "all");
    assert_eq!(state.source_filter_for_request(), None);
    state.set_available_sources(vec!["github".to_string()]);
    state.cycle_source_filter();
    state.toggle_unread_only();
    assert_eq!(state.read_filter_label(), "all");
    assert_eq!(state.source_filter_label(), "github");
    assert_eq!(state.source_filter_for_request().as_deref(), Some("github"));
    assert_eq!(EVENT_LIMIT, 100);
}

#[test]
fn keys_drive_the_state_and_the_loop() {
    assert_eq!(key_for_char('q'), TuiKey::Quit);
    assert_eq!(key_for_char('j'), TuiKey::Down);
    assert_eq!(key_for_char('k'), TuiKey::Up);
    assert_eq!(key_for_char('r'), TuiKey::Refresh);
    assert_eq!(key_for_char('m'), TuiKey::MarkRead);
    assert_eq!(key_for_char('u'), TuiKey::ToggleUnread);
    assert_eq!(key_for_char('s'), TuiKey::CycleSource);
    assert_eq!(key_for_char('x'), TuiKey::Other);

    let mut state = TuiState::default();
    assert_eq!(state.handle_key(TuiKey::MarkRead), TuiCommand::Redraw);
    state.set_events(vec![event(1, "github", false), event(2, "slack", false)]);
    assert_eq!(state.handle_key(TuiKey::Down), TuiCommand::Redraw);
    assert_eq!(state.handle_key(TuiKey::MarkRead), TuiCommand::MarkRead { id: 2 });
    assert_eq!(state.handle_key(TuiKey::Up), TuiCommand::Redraw);
    assert_eq!(state.selected, 0);
    assert_eq!(state.handle_key(TuiKey::ToggleUnread), TuiCommand::RefreshEvents);
    assert!(!state.unread_only);
    assert_eq!(state.handle_key(TuiKey::CycleSource), TuiCommand::RefreshEvents);
    assert_eq!(state.handle_key(TuiKey::Refresh), TuiCommand::RefreshAll);
    assert_eq!(state.handle_key(TuiKey::Other), TuiCommand::Redraw);
    assert_eq!(state.handle_key(TuiKey::Quit), TuiCommand::Quit);
}

#[test]
fn detail_pane_lists_fields_in_order() {
    let mut e = event(3, "github", true);
    e.body = Some("   ".to_string());
    e.actor = None;
    let fields = detail_fields(&e);
    let fields: Vec<(&str, &str)> = fields.iter().map(|(l, v)| (l.as_str(), v.as_str())).collect();
    assert_eq!(
        fields,
        vec![
            ("Title", "title 3"),
            ("Body", "-"),
            ("Source", "github"),
            ("Reason", "mention"),
            ("Actor", "-"),
            ("URL", "https://example.com/github/3"),
            ("Occurred", "2026-05-26 01:02:03 UTC"),
            ("Read state", "read at 2026-05-26 01:04:03 UTC"),
        ]
    );
    assert_eq!(format_read_state(&event(1, "slack", false)), "unread");
}

#[test]
fn list_rows_mark_unread_events() {
    let (marker, tag, time, title) = list_row(&event(2, "slack", false));
    assert_eq!(marker, "*");
    assert_eq!(tag, "[slack]");
    assert_eq!(time, "05-26 01:02");
    assert_eq!(title, "title 2");
    let (marker, _, _, _) = list_row(&event(2, "slack", true));
    assert_eq!(marker, " ");
}

#[test]
fn keys_change_only_what_they_name() {
    let mut state = TuiState::default();
    state.set_events(vec![event(1, "github", false), event(2, "slack", false)]);
    state.set_available_sources(vec!["github".to_string(), "slack".to_string()]);
    let unread = state.unread_only;
    state.handle_key(TuiKey::Down);
    assert_eq!(state.selected, 1);
    assert_eq!(state.unread_only, unread);
    assert_eq!(state.source_filter, None);
    state.handle_key(TuiKey::ToggleUnread);
    assert_eq!(state.selected, 1);
    assert_eq!(state.unread_only, !unread);
    state.handle_key(TuiKey::CycleSource);
    assert_eq!(state.selected, 1);
    assert_eq!(state.unread_only, !unread);
    assert_eq!(state.source_filter.as_deref(), Some("github"));
    state.handle_key(TuiKey::Up);
    assert_eq!(state.selected, 0);
    assert_eq!(state.source_filter.as_deref(), Some("github"));
    assert_eq!(state.available_sources.len(), 2);
}
