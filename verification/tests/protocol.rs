use zjpane::pane::PaneRecord;
use zjpane::pipe::HostCall;
use zjpane::state::{Event, Key, Mode, State};
use zjpane::user_command::UserCommand;

fn pane(id: u32, title: &str) -> PaneRecord {
    PaneRecord { id, title: title.to_string(), is_plugin: false }
}

fn state_with_panes() -> State {
    let mut state = State::default();
    state.update(&Event::PermissionResult(true));
    state.update(&Event::PaneUpdate(vec![(0usize, vec![pane(1, "shell"), pane(2, "editor")])]));
    state
}

#[test]
fn shell_tokenization_round_trip() {
    let mut command = UserCommand { name: "c".to_string(), args: Vec::new() };
    command.set_command("git commit -m \"fix bug\"");
    assert_eq!(command.args, vec!["git", "commit", "-m", "fix bug"]);
}

#[test]
fn registry_builds_one_command_from_config() {
    let mut state = State::default();
    let config = vec![("command_build_command".to_string(), "make -j4".to_string())];
    state.parse_config(&config);
    assert_eq!(state.commands.len(), 1);
    assert_eq!(state.commands[0].name, "build");
    assert_eq!(state.commands[0].args, vec!["make", "-j4"]);
}

#[test]
fn registry_ignores_unrelated_keys_and_merges_names() {
    let mut state = State::default();
    let config = vec![
        ("color_theme".to_string(), "dark".to_string()),
        ("command_deploy_args".to_string(), "ignored".to_string()),
        ("command_deploy_command".to_string(), "ship it".to_string()),
    ];
    state.parse_config(&config);
    assert_eq!(state.commands.len(), 1);
    assert_eq!(state.commands[0].name, "deploy");
    assert_eq!(state.commands[0].args, vec!["ship", "it"]);
}

#[test]
fn registry_key_without_command_suffix_yields_inert_entry() {
    let mut state = State::default();
    state.update(&Event::PermissionResult(true));
    let config = vec![("command_foo_bar".to_string(), "never used".to_string())];
    state.parse_config(&config);
    assert_eq!(state.commands.len(), 1);
    assert_eq!(state.commands[0].name, "foo");
    assert!(state.commands[0].args.is_empty());

    let (render, calls) = state.parse_pipe("zjpane::execute::foo");
    assert!(!render);
    assert!(calls.is_empty());

    state.update(&Event::Key(Key::Right));
    assert_eq!(state.mode, Mode::Command);
    let (render, calls) = state.update(&Event::Key(Key::Char('\n')));
    assert!(!render);
    assert_eq!(calls, vec![HostCall::HideSelf]);
}

#[test]
fn execute_pipe_runs_named_command_floating() {
    let mut state = State::default();
    let config = vec![("command_build_command".to_string(), "make -j4".to_string())];
    state.parse_config(&config);
    let (render, calls) = state.parse_pipe("zjpane::execute::build");
    assert!(!render);
    assert_eq!(
        calls,
        vec![HostCall::RunCommandFloating("make".to_string(), vec!["-j4".to_string()])]
    );
}

#[test]
fn execute_at_pipe_uses_the_index() {
    let mut state = State::default();
    let config = vec![
        ("command_build_command".to_string(), "make -j4".to_string()),
        ("command_test_command".to_string(), "cargo test".to_string()),
    ];
    state.parse_config(&config);
    let (_, calls) = state.parse_pipe("zjpane::execute_at::1");
    assert_eq!(
        calls,
        vec![HostCall::RunCommandFloating("cargo".to_string(), vec!["test".to_string()])]
    );
    let (_, calls) = state.parse_pipe("zjpane::execute_at::2");
    assert!(calls.is_empty());
    let (_, calls) = state.parse_pipe("zjpane::execute::missing");
    assert!(calls.is_empty());
}

#[test]
fn focus_pipe_finds_pane_by_title() {
    let state = state_with_panes();
    let (render, calls) = state.parse_pipe("zjpane::focus::editor");
    assert!(!render);
    assert_eq!(calls, vec![HostCall::FocusPane(2, false)]);
    let (_, calls) = state.parse_pipe("zjpane::focus::missing");
    assert!(calls.is_empty());
}

#[test]
fn focus_at_pipe_rejects_out_of_range_and_non_numeric() {
    let state = state_with_panes();
    let (_, calls) = state.parse_pipe("zjpane::focus_at::5");
    assert!(calls.is_empty());
    let (_, calls) = state.parse_pipe("zjpane::focus_at::abc");
    assert!(calls.is_empty());
    let (_, calls) = state.parse_pipe("zjpane::focus_at::-1");
    assert!(calls.is_empty());
    let (_, calls) = state.parse_pipe("zjpane::focus_at::1");
    assert_eq!(calls, vec![HostCall::FocusPane(2, false)]);
    let (_, calls) = state.parse_pipe("zjpane::focus_at::+1");
    assert_eq!(calls, vec![HostCall::FocusPane(2, false)]);
}

#[test]
fn malformed_pipe_inputs_are_ignored() {
    let mut state = state_with_panes();
    let before_position = state.position;
    for input in [
        "",
        "zjpane",
        "zjpane::focus",
        "notzjpane::focus::editor",
        "zjpane::unknown::payload",
        "::::",
        "zjpane::focus::",
    ] {
        let (render, calls) = state.parse_pipe(input);
        assert!(!render, "input {:?} asked for a redraw", input);
        assert!(calls.is_empty(), "input {:?} produced calls", input);
    }
    assert_eq!(state.position, before_position);
    assert_eq!(state.mode, Mode::Pane);
}

#[test]
fn pipe_payload_after_extra_separators_is_the_third_part() {
    let state = state_with_panes();
    // Only the third part names the pane; anything after another
    // separator is left behind by the three-part read.
    let (_, calls) = state.parse_pipe("zjpane::focus::editor::extra");
    assert_eq!(calls, vec![HostCall::FocusPane(2, false)]);
    let (_, calls) = state.parse_pipe("zjpane::focus::editor extra");
    assert!(calls.is_empty());
}

#[test]
fn pipe_entry_point_handles_missing_payload() {
    let state = state_with_panes();
    let (render, calls) = state.pipe(&None);
    assert!(!render);
    assert!(calls.is_empty());
    let (render, calls) = state.pipe(&Some("zjpane::focus::shell".to_string()));
    assert!(!render);
    assert_eq!(calls, vec![HostCall::FocusPane(1, false)]);
}

#[test]
fn pipe_never_changes_cursor_or_mode() {
    let mut state = state_with_panes();
    state.update(&Event::Key(Key::Down));
    let position = state.position;
    let (render, _) = state.parse_pipe("zjpane::focus::shell");
    assert!(!render);
    assert_eq!(state.position, position);
    assert_eq!(state.mode, Mode::Pane);
}
