use zjpane::pane::{PaneRecord, TabRecord};
use zjpane::pipe::HostCall;
use zjpane::state::{Event, Key, Mode, State};

fn pane(id: u32, title: &str) -> PaneRecord {
    PaneRecord { id, title: title.to_string(), is_plugin: false }
}

fn plugin_pane(id: u32, title: &str) -> PaneRecord {
    PaneRecord { id, title: title.to_string(), is_plugin: true }
}

fn granted_state() -> State {
    let mut state = State::default();
    let (render, calls) = state.update(&Event::PermissionResult(true));
    assert!(!render);
    assert!(calls.is_empty());
    assert!(state.has_permission_granted);
    state
}

fn two_pane_state() -> State {
    let mut state = granted_state();
    let groups = vec![(0usize, vec![pane(1, "shell"), pane(2, "editor")])];
    let (render, calls) = state.update(&Event::PaneUpdate(groups));
    assert!(render);
    assert!(calls.is_empty());
    state
}

#[test]
fn pane_update_filters_plugin_and_foreign_tabs() {
    let mut state = granted_state();
    let (_, calls) = state.update(&Event::TabUpdate(vec![
        TabRecord { position: 0, active: false },
        TabRecord { position: 1, active: true },
    ]));
    assert!(calls.is_empty());
    assert_eq!(state.active_tab, 1);

    let groups = vec![
        (0usize, vec![pane(1, "other-tab")]),
        (1usize, vec![pane(2, "shell"), plugin_pane(3, "controller"), pane(4, "editor")]),
    ];
    let (render, calls) = state.update(&Event::PaneUpdate(groups));
    assert!(render);
    assert!(calls.is_empty());
    let titles: Vec<&str> = state.panes.iter().map(|p| p.title.as_str()).collect();
    assert_eq!(titles, vec!["shell", "editor"]);
    assert!(state.panes.iter().all(|p| !p.is_plugin));
    assert_eq!(state.position, 0);
}

#[test]
fn tab_update_alone_does_not_redraw() {
    let mut state = granted_state();
    let (render, calls) = state.update(&Event::TabUpdate(vec![TabRecord {
        position: 2,
        active: true,
    }]));
    assert!(!render);
    assert!(calls.is_empty());
    assert_eq!(state.active_tab, 2);
}

#[test]
fn cursor_stays_in_bounds_through_up_down_sequences() {
    let mut state = two_pane_state();
    let inputs = [
        Key::Down,
        Key::Down,
        Key::Down,
        Key::Up,
        Key::Up,
        Key::Up,
        Key::Down,
    ];
    for key in inputs {
        let (render, calls) = state.update(&Event::Key(key));
        assert!(render);
        assert!(calls.is_empty());
        let len = state.panes.len();
        assert!(state.position < std::cmp::max(1, len));
    }
    assert_eq!(state.position, 1);
}

#[test]
fn up_down_on_empty_lists_is_a_no_op() {
    let mut state = granted_state();
    for key in [Key::Down, Key::Up, Key::Down] {
        let (render, calls) = state.update(&Event::Key(key));
        assert!(render);
        assert!(calls.is_empty());
        assert_eq!(state.position, 0);
    }
}

#[test]
fn mode_toggle_resets_cursor_each_switch() {
    let mut state = two_pane_state();
    state.update(&Event::Key(Key::Down));
    assert_eq!(state.position, 1);

    let (render, calls) = state.update(&Event::Key(Key::Right));
    assert!(render);
    assert!(calls.is_empty());
    assert_eq!(state.mode, Mode::Command);
    assert_eq!(state.position, 0);

    let (render, calls) = state.update(&Event::Key(Key::Left));
    assert!(render);
    assert!(calls.is_empty());
    assert_eq!(state.mode, Mode::Pane);
    assert_eq!(state.position, 0);
}

#[test]
fn permission_denied_drops_key_events() {
    let mut state = two_pane_state();
    state.update(&Event::Key(Key::Down));
    assert_eq!(state.position, 1);

    let (render, calls) = state.update(&Event::PermissionResult(false));
    assert!(!render);
    assert!(calls.is_empty());

    let (render, calls) = state.update(&Event::Key(Key::Down));
    assert!(!render);
    assert!(calls.is_empty());
    assert_eq!(state.position, 1);
    assert_eq!(state.mode, Mode::Pane);

    let (render, calls) = state.update(&Event::Key(Key::Right));
    assert!(!render);
    assert!(calls.is_empty());
    assert_eq!(state.mode, Mode::Pane);
}

#[test]
fn events_before_any_grant_are_dropped() {
    let mut state = State::default();
    let groups = vec![(0usize, vec![pane(1, "shell")])];
    let (render, calls) = state.update(&Event::PaneUpdate(groups));
    assert!(!render);
    assert!(calls.is_empty());
    assert!(state.panes.is_empty());
}

#[test]
fn enter_focuses_pane_under_cursor_and_hides() {
    let mut state = two_pane_state();
    state.update(&Event::Key(Key::Down));
    let (render, calls) = state.update(&Event::Key(Key::Char('\n')));
    assert!(!render);
    assert_eq!(calls, vec![HostCall::HideSelf, HostCall::FocusPane(2, false)]);
    assert_eq!(state.position, 0);
}

#[test]
fn enter_on_empty_pane_list_is_a_no_op() {
    let mut state = granted_state();
    let (render, calls) = state.update(&Event::Key(Key::Char('\n')));
    assert!(!render);
    assert!(calls.is_empty());
    assert_eq!(state.position, 0);
}

#[test]
fn escape_resets_cursor_and_hides_without_redraw() {
    let mut state = two_pane_state();
    state.update(&Event::Key(Key::Down));
    assert_eq!(state.position, 1);
    let (render, calls) = state.update(&Event::Key(Key::Esc));
    assert!(!render);
    assert_eq!(calls, vec![HostCall::HideSelf]);
    assert_eq!(state.position, 0);
    assert_eq!(state.mode, Mode::Pane);
}

#[test]
fn tab_update_without_an_active_tab_keeps_the_filter() {
    let mut state = granted_state();
    state.update(&Event::TabUpdate(vec![TabRecord { position: 3, active: true }]));
    assert_eq!(state.active_tab, 3);
    state.update(&Event::TabUpdate(vec![
        TabRecord { position: 0, active: false },
        TabRecord { position: 1, active: false },
    ]));
    assert_eq!(state.active_tab, 3);
}

#[test]
fn unconsumed_events_change_nothing() {
    let mut state = two_pane_state();
    state.update(&Event::Key(Key::Down));
    let (render, calls) = state.update(&Event::Other);
    assert!(!render);
    assert!(calls.is_empty());
    assert_eq!(state.position, 1);
    assert_eq!(state.mode, Mode::Pane);
    assert_eq!(state.panes.len(), 2);
}

#[test]
fn other_characters_do_nothing() {
    let mut state = two_pane_state();
    let (render, calls) = state.update(&Event::Key(Key::Char('x')));
    assert!(!render);
    assert!(calls.is_empty());
    assert_eq!(state.position, 0);
}

#[test]
fn display_rows_mark_the_cursor_row() {
    let mut state = two_pane_state();
    state.update(&Event::Key(Key::Down));
    let rows = state.display_rows();
    assert_eq!(rows.len(), 2);
    assert!(!rows[0].selected);
    assert_eq!(rows[0].tag, 1);
    assert_eq!(rows[0].label, "shell");
    assert!(rows[1].selected);
    assert_eq!(rows[1].tag, 2);
    assert_eq!(rows[1].label, "editor");
}

#[test]
fn display_rows_in_command_mode_use_indexes() {
    let mut state = granted_state();
    let config = vec![
        ("command_build_command".to_string(), "make -j4".to_string()),
        ("command_test_command".to_string(), "cargo test".to_string()),
    ];
    state.parse_config(&config);
    state.update(&Event::Key(Key::Right));
    let rows = state.display_rows();
    assert_eq!(rows.len(), 2);
    assert!(rows[0].selected);
    assert_eq!(rows[0].tag, 0);
    assert_eq!(rows[0].label, "build");
    assert_eq!(rows[1].tag, 1);
    assert_eq!(rows[1].label, "test");
}
