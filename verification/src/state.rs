//! The event-driven controller: mode switching, cursor navigation,
//! permission gating, and the dispatch of host events and pipe messages.
//!
//! Every handler is a reducer: it mutates the controller state and returns
//! a redraw flag together with the host calls to perform. The `step`
//! family of spec functions pins down each transition exactly.

use vstd::prelude::*;
use crate::pane::{first_active_pos, rebuild_panes, scan_active_tab, visible_panes, PaneRecord,
    PaneView, TabRecord};
use crate::pipe::{pipe_actions, pipe_calls, run_calls, run_command_calls, HostCall, HostCallView};
use crate::user_command::{apply_config, lemma_registry_fold_len, registry_fold, CommandView,
    UserCommand};

verus! {

/// Which list the cursor addresses.
#[derive(Debug, Clone, Copy, PartialEq, Eq, Structural)]
pub enum Mode {
    Pane,
    Command,
}

impl Default for Mode {
    fn default() -> (m: Self)
        ensures
            m == Mode::Pane,
    {
        Mode::Pane
    }
}

/// A key press as the controller distinguishes them; enter arrives as the
/// newline character.
#[derive(Debug, Clone, Copy, PartialEq, Eq, Structural)]
pub enum Key {
    Up,
    Down,
    Left,
    Right,
    Esc,
    Char(char),
    Other,
}

/// One host-delivered event. `Other` stands for every event kind the
/// controller subscribes to but does not consume.
#[derive(Debug)]
pub enum Event {
    TabUpdate(Vec<TabRecord>),
    PaneUpdate(Vec<(usize, Vec<PaneRecord>)>),
    Key(Key),
    PermissionResult(bool),
    Other,
}

/// Mathematical model of the controller state.
#[verifier::ext_equal]
pub struct StateModel {
    pub active_tab: usize,
    pub panes: Seq<PaneView>,
    pub position: usize,
    pub permission: bool,
    pub commands: Seq<CommandView>,
    pub mode: Mode,
}

impl StateModel {
    pub open spec fn with_position(self, p: usize) -> StateModel {
        StateModel { position: p, ..self }
    }

    pub open spec fn with_mode(self, m: Mode) -> StateModel {
        StateModel { mode: m, position: 0, ..self }
    }

    pub open spec fn with_active_tab(self, t: usize) -> StateModel {
        StateModel { active_tab: t, ..self }
    }

    pub open spec fn with_panes(self, ps: Seq<PaneView>) -> StateModel {
        StateModel { panes: ps, position: 0, ..self }
    }

    pub open spec fn with_permission(self, p: bool) -> StateModel {
        StateModel { permission: p, ..self }
    }

    pub open spec fn with_commands(self, cs: Seq<CommandView>) -> StateModel {
        StateModel { commands: cs, ..self }
    }

    /// Length of the list the cursor addresses in the current mode.
    pub open spec fn active_len(self) -> nat {
        match self.mode {
            Mode::Pane => self.panes.len(),
            Mode::Command => self.commands.len(),
        }
    }

    /// The cursor invariant: `0 <= position < max(1, len(active list))`.
    pub open spec fn inv(self) -> bool {
        self.position == 0 || (self.position as nat) < self.active_len()
    }
}

/// The transitions every mode shares: tab updates retarget the pane
/// filter, pane updates rebuild the snapshot and reset the cursor, and
/// escape resets the cursor and hides the controller surface. Only a
/// pane update asks for a redraw.
pub open spec fn global_step(
    pre: StateModel,
    post: StateModel,
    event: Event,
    render: bool,
    calls: Seq<HostCallView>,
) -> bool {
    match event {
        Event::TabUpdate(tabs) => post == pre.with_active_tab(first_active_pos(tabs@, pre.active_tab))
            && !render && calls == Seq::<HostCallView>::empty(),
        Event::PaneUpdate(groups) => post == pre.with_panes(visible_panes(groups@, pre.active_tab))
            && render && calls == Seq::<HostCallView>::empty(),
        Event::Key(k) => if k is Esc {
            post == pre.with_position(0) && !render && calls == seq![HostCallView::HideSelf]
        } else {
            post == pre && !render && calls == Seq::<HostCallView>::empty()
        },
        _ => post == pre && !render && calls == Seq::<HostCallView>::empty(),
    }
}

/// Key handling while browsing panes: up and down move the cursor inside
/// the pane list, right switches to command mode with the cursor reset,
/// and enter focuses the pane under the cursor, resets the cursor, and
/// hides the controller surface. Navigation asks for a redraw; a select
/// does not.
pub open spec fn pane_key_step(
    pre: StateModel,
    post: StateModel,
    k: Key,
    render: bool,
    calls: Seq<HostCallView>,
) -> bool {
    match k {
        Key::Up => post == pre.with_position(
            if pre.position > 0 {
                (pre.position - 1) as usize
            } else {
                0
            },
        ) && render && calls == Seq::<HostCallView>::empty(),
        Key::Down => post == pre.with_position(
            if pre.position + 1 < pre.panes.len() {
                (pre.position + 1) as usize
            } else {
                pre.position
            },
        ) && render && calls == Seq::<HostCallView>::empty(),
        Key::Right => post == pre.with_mode(Mode::Command) && render && calls == Seq::<
            HostCallView,
        >::empty(),
        Key::Char(c) => if c == '\n' {
            if (pre.position as nat) < pre.panes.len() {
                post == pre.with_position(0) && !render && calls == seq![
                    HostCallView::HideSelf,
                    HostCallView::FocusPane(pre.panes[pre.position as int].id, false),
                ]
            } else {
                post == pre && !render && calls == Seq::<HostCallView>::empty()
            }
        } else {
            post == pre && !render && calls == Seq::<HostCallView>::empty()
        },
        _ => post == pre && !render && calls == Seq::<HostCallView>::empty(),
    }
}

/// Key handling while browsing commands: symmetric to pane mode, with
/// left switching back to pane mode, and enter running the command under
/// the cursor (a command with no tokens runs nothing).
pub open spec fn command_key_step(
    pre: StateModel,
    post: StateModel,
    k: Key,
    render: bool,
    calls: Seq<HostCallView>,
) -> bool {
    match k {
        Key::Up => post == pre.with_position(
            if pre.position > 0 {
                (pre.position - 1) as usize
            } else {
                0
            },
        ) && render && calls == Seq::<HostCallView>::empty(),
        Key::Down => post == pre.with_position(
            if pre.position + 1 < pre.commands.len() {
                (pre.position + 1) as usize
            } else {
                pre.position
            },
        ) && render && calls == Seq::<HostCallView>::empty(),
        Key::Left => post == pre.with_mode(Mode::Pane) && render && calls == Seq::<
            HostCallView,
        >::empty(),
        Key::Char(c) => if c == '\n' {
            if (pre.position as nat) < pre.commands.len() {
                post == pre.with_position(0) && !render && calls == seq![HostCallView::HideSelf]
                    + run_calls(pre.commands[pre.position as int])
            } else {
                post == pre && !render && calls == Seq::<HostCallView>::empty()
            }
        } else {
            post == pre && !render && calls == Seq::<HostCallView>::empty()
        },
        _ => post == pre && !render && calls == Seq::<HostCallView>::empty(),
    }
}

/// What the pane-mode handler does with a whole event: it only acts on
/// keys.
pub open spec fn pane_event_step(
    pre: StateModel,
    post: StateModel,
    event: Event,
    render: bool,
    calls: Seq<HostCallView>,
) -> bool {
    match event {
        Event::Key(k) => pane_key_step(pre, post, k, render, calls),
        _ => post == pre && !render && calls == Seq::<HostCallView>::empty(),
    }
}

/// What the command-mode handler does with a whole event.
pub open spec fn command_event_step(
    pre: StateModel,
    post: StateModel,
    event: Event,
    render: bool,
    calls: Seq<HostCallView>,
) -> bool {
    match event {
        Event::Key(k) => command_key_step(pre, post, k, render, calls),
        _ => post == pre && !render && calls == Seq::<HostCallView>::empty(),
    }
}

/// One full dispatch of an event through the controller, permission
/// already granted: the shared transitions, then the handler of the
/// current mode for key input.
pub open spec fn step(
    pre: StateModel,
    post: StateModel,
    event: Event,
    render: bool,
    calls: Seq<HostCallView>,
) -> bool {
    match event {
        Event::Key(k) => if k is Esc {
            post == pre.with_position(0) && !render && calls == seq![HostCallView::HideSelf]
        } else {
            match pre.mode {
                Mode::Pane => pane_key_step(pre, post, k, render, calls),
                Mode::Command => command_key_step(pre, post, k, render, calls),
            }
        },
        _ => global_step(pre, post, event, render, calls),
    }
}

/// The permission flag after an event: only the decision event changes it.
pub open spec fn perm_after(p: bool, event: Event) -> bool {
    match event {
        Event::PermissionResult(g) => g,
        _ => p,
    }
}

/// The controller state: the pane snapshot of the active tab, the command
/// registry, the browsing mode with its cursor, and the permission gate.
pub struct State {
    pub active_tab: usize,
    pub panes: Vec<PaneRecord>,
    pub position: usize,
    pub has_permission_granted: bool,
    pub commands: Vec<UserCommand>,
    pub mode: Mode,
}

impl View for State {
    type V = StateModel;

    open spec fn view(&self) -> StateModel {
        StateModel {
            active_tab: self.active_tab,
            panes: self.panes.deep_view(),
            position: self.position,
            permission: self.has_permission_granted,
            commands: self.commands.deep_view(),
            mode: self.mode,
        }
    }
}

impl Default for State {
    fn default() -> (s: Self)
        ensures
            s@.active_tab == 0,
            s@.panes == Seq::<PaneView>::empty(),
            s@.position == 0,
            !s@.permission,
            s@.commands == Seq::<CommandView>::empty(),
            s@.mode == Mode::Pane,
            s@.inv(),
    {
        let s = State {
            active_tab: 0,
            panes: Vec::new(),
            position: 0,
            has_permission_granted: false,
            commands: Vec::new(),
            mode: Mode::Pane,
        };
        proof {
            assert(s@.panes =~= Seq::<PaneView>::empty());
            assert(s@.commands =~= Seq::<CommandView>::empty());
        }
        s
    }
}

fn no_calls() -> (r: Vec<HostCall>)
    ensures
        r@ == Seq::<HostCall>::empty(),
        r.deep_view() == Seq::<HostCallView>::empty(),
{
    let r: Vec<HostCall> = Vec::new();
    proof {
        assert(r.deep_view() =~= Seq::<HostCallView>::empty());
    }
    r
}

impl State {
    /// Builds the command registry from flat configuration pairs, in order.
    pub fn parse_config(&mut self, user_config: &Vec<(String, String)>)
        ensures
            final(self)@ == old(self)@.with_commands(
                registry_fold(old(self)@.commands, user_config@),
            ),
            old(self)@.inv() ==> final(self)@.inv(),
    {
        apply_config(&mut self.commands, user_config);
        proof {
            assert(self@ =~= old(self)@.with_commands(
                registry_fold(old(self)@.commands, user_config@),
            ));
            lemma_registry_fold_len(old(self)@.commands, user_config@);
        }
    }

    /// The transitions every mode shares.
    pub fn handle_event(&mut self, event: &Event) -> (r: (bool, Vec<HostCall>))
        ensures
            global_step(old(self)@, final(self)@, *event, r.0, r.1.deep_view()),
            old(self)@.inv() ==> final(self)@.inv(),
    {
        match event {
            Event::TabUpdate(tabs) => {
                self.active_tab = scan_active_tab(tabs, self.active_tab);
                proof {
                    assert(self@ =~= old(self)@.with_active_tab(
                        first_active_pos(tabs@, old(self)@.active_tab),
                    ));
                }
                (false, no_calls())
            },
            Event::PaneUpdate(groups) => {
                self.panes = rebuild_panes(groups, self.active_tab);
                self.position = 0;
                proof {
                    assert(self@ =~= old(self)@.with_panes(
                        visible_panes(groups@, old(self)@.active_tab),
                    ));
                }
                (true, no_calls())
            },
            Event::Key(k) => match k {
                Key::Esc => {
                    self.position = 0;
                    let mut v = no_calls();
                    v.push(HostCall::HideSelf);
                    proof {
                        assert(v.deep_view() =~= seq![HostCallView::HideSelf]);
                        assert(self@ =~= old(self)@.with_position(0));
                    }
                    (false, v)
                },
                _ => (false, no_calls()),
            },
            _ => (false, no_calls()),
        }
    }

    /// Key handling while browsing panes.
    pub fn handle_pane_event(&mut self, event: &Event) -> (r: (bool, Vec<HostCall>))
        ensures
            pane_event_step(old(self)@, final(self)@, *event, r.0, r.1.deep_view()),
            old(self)@.inv() && old(self)@.mode == Mode::Pane ==> final(self)@.inv(),
    {
        match event {
            Event::Key(k) => match k {
                Key::Up => {
                    if self.position > 0 {
                        self.position = self.position - 1;
                    }
                    proof {
                        assert(self@ =~= old(self)@.with_position(self.position));
                    }
                    (true, no_calls())
                },
                Key::Down => {
                    if self.panes.len() > 0 && self.position < self.panes.len() - 1 {
                        self.position = self.position + 1;
                    }
                    proof {
                        assert(self@ =~= old(self)@.with_position(self.position));
                    }
                    (true, no_calls())
                },
                Key::Right => {
                    self.position = 0;
                    self.mode = Mode::Command;
                    proof {
                        assert(self@ =~= old(self)@.with_mode(Mode::Command));
                    }
                    (true, no_calls())
                },
                Key::Char(c) => {
                    if *c == '\n' && self.position < self.panes.len() {
                        let id = self.panes[self.position].id;
                        self.position = 0;
                        let mut v = no_calls();
                        v.push(HostCall::HideSelf);
                        v.push(HostCall::FocusPane(id, false));
                        proof {
                            assert(old(self)@.panes[old(self).position as int]
                                == old(self).panes@[old(self).position as int]@);
                            assert(v.deep_view() =~= seq![
                                HostCallView::HideSelf,
                                HostCallView::FocusPane(
                                    old(self)@.panes[old(self).position as int].id,
                                    false,
                                ),
                            ]);
                            assert(self@ =~= old(self)@.with_position(0));
                        }
                        (false, v)
                    } else {
                        (false, no_calls())
                    }
                },
                Key::Left | Key::Esc | Key::Other => (false, no_calls()),
            },
            _ => (false, no_calls()),
        }
    }

    /// Key handling while browsing commands.
    pub fn handle_command_event(&mut self, event: &Event) -> (r: (bool, Vec<HostCall>))
        ensures
            command_event_step(old(self)@, final(self)@, *event, r.0, r.1.deep_view()),
            old(self)@.inv() && old(self)@.mode == Mode::Command ==> final(self)@.inv(),
    {
        match event {
            Event::Key(k) => match k {
                Key::Up => {
                    if self.position > 0 {
                        self.position = self.position - 1;
                    }
                    proof {
                        assert(self@ =~= old(self)@.with_position(self.position));
                    }
                    (true, no_calls())
                },
                Key::Down => {
                    if self.commands.len() > 0 && self.position < self.commands.len() - 1 {
                        self.position = self.position + 1;
                    }
                    proof {
                        assert(self@ =~= old(self)@.with_position(self.position));
                    }
                    (true, no_calls())
                },
                Key::Left => {
                    self.position = 0;
                    self.mode = Mode::Pane;
                    proof {
                        assert(self@ =~= old(self)@.with_mode(Mode::Pane));
                    }
                    (true, no_calls())
                },
                Key::Char(c) => {
                    if *c == '\n' && self.position < self.commands.len() {
                        let mut v = no_calls();
                        v.push(HostCall::HideSelf);
                        let mut run = run_command_calls(&self.commands[self.position]);
                        let ghost dvr = run.deep_view();
                        v.append(&mut run);
                        self.position = 0;
                        proof {
                            assert(old(self)@.commands[old(self).position as int]
                                == old(self).commands@[old(self).position as int]@);
                            assert(v.deep_view() =~= seq![HostCallView::HideSelf] + dvr);
                            assert(self@ =~= old(self)@.with_position(0));
                        }
                        (false, v)
                    } else {
                        (false, no_calls())
                    }
                },
                Key::Right | Key::Esc | Key::Other => (false, no_calls()),
            },
            _ => (false, no_calls()),
        }
    }

    /// The central reducer. The permission decision is applied first and
    /// gates everything else: while permission is not granted, no event
    /// mutates any other state and nothing is redrawn or asked of the
    /// host. With permission granted, the event takes one `step`.
    pub fn update(&mut self, event: &Event) -> (r: (bool, Vec<HostCall>))
        ensures
            final(self)@.permission == perm_after(old(self)@.permission, *event),
            !final(self)@.permission ==> final(self)@ == old(self)@.with_permission(false) && r.0
                == false && r.1.deep_view() == Seq::<HostCallView>::empty(),
            final(self)@.permission ==> step(
                old(self)@.with_permission(true),
                final(self)@,
                *event,
                r.0,
                r.1.deep_view(),
            ),
            old(self)@.inv() ==> final(self)@.inv(),
    {
        match event {
            Event::PermissionResult(g) => {
                self.has_permission_granted = *g;
            },
            _ => {},
        }
        if !self.has_permission_granted {
            proof {
                assert(self@ =~= old(self)@.with_permission(false));
            }
            return (false, no_calls());
        }
        let ghost pre = old(self)@.with_permission(true);
        proof {
            assert(self@ =~= pre);
        }
        let t1 = self.handle_event(event);
        let r1 = t1.0;
        let mut c1 = t1.1;
        let ghost mid = self@;
        let t2 = match self.mode {
            Mode::Pane => self.handle_pane_event(event),
            Mode::Command => self.handle_command_event(event),
        };
        let r2 = t2.0;
        let mut c2 = t2.1;
        let ghost dv1 = c1.deep_view();
        let ghost dv2 = c2.deep_view();
        c1.append(&mut c2);
        proof {
            assert(c1.deep_view() =~= dv1 + dv2);
            if dv1.len() == 0 {
                assert(dv1 + dv2 =~= dv2);
            }
            if dv2.len() == 0 {
                assert(dv1 + dv2 =~= dv1);
            }
            match *event {
                Event::Key(k) => {
                    if k is Esc {
                        assert(step(pre, self@, *event, r1 || r2, dv1 + dv2));
                    } else {
                        assert(mid == pre);
                        assert(step(pre, self@, *event, r1 || r2, dv1 + dv2));
                    }
                },
                _ => {
                    assert(self@ == mid);
                    assert(step(pre, self@, *event, r1 || r2, dv1 + dv2));
                },
            }
        }
        (r1 || r2, c1)
    }

    /// Pipe-message entry point: parses the message and returns the host
    /// calls it asks for. Pipe messages never change state, never move the
    /// cursor, and never ask for a redraw.
    pub fn parse_pipe(&self, input: &str) -> (r: (bool, Vec<HostCall>))
        ensures
            r.0 == false,
            r.1.deep_view() == pipe_calls(self@.panes, self@.commands, input@),
    {
        (false, pipe_actions(&self.panes, &self.commands, input))
    }

    /// A pipe delivery: a message with no payload asks nothing.
    pub fn pipe(&self, payload: &Option<String>) -> (r: (bool, Vec<HostCall>))
        ensures
            r.0 == false,
            r.1.deep_view() == (match payload {
                Some(s) => pipe_calls(self@.panes, self@.commands, s@),
                None => Seq::<HostCallView>::empty(),
            }),
    {
        match payload {
            Some(s) => self.parse_pipe(s.as_str()),
            None => (false, no_calls()),
        }
    }
}

/// One row of the display: whether the cursor is on it, the number shown
/// beside it (the pane's host handle in pane mode, the list index in
/// command mode), and its text.
#[derive(Debug, PartialEq)]
pub struct DisplayRow {
    pub selected: bool,
    pub tag: u64,
    pub label: String,
}

/// Mathematical model of a `DisplayRow`.
#[verifier::ext_equal]
pub struct RowView {
    pub selected: bool,
    pub tag: u64,
    pub label: Seq<char>,
}

impl View for DisplayRow {
    type V = RowView;

    open spec fn view(&self) -> RowView {
        RowView { selected: self.selected, tag: self.tag, label: self.label@ }
    }
}

impl DeepView for DisplayRow {
    type V = RowView;

    open spec fn deep_view(&self) -> RowView {
        self.view()
    }
}

/// The rows the display shows: one per entry of the list the current mode
/// addresses, the cursor row marked.
pub open spec fn rows_spec(m: StateModel) -> Seq<RowView> {
    match m.mode {
        Mode::Pane => Seq::new(
            m.panes.len(),
            |i: int|
                RowView {
                    selected: i == m.position,
                    tag: m.panes[i].id as u64,
                    label: m.panes[i].title,
                },
        ),
        Mode::Command => Seq::new(
            m.commands.len(),
            |i: int|
                RowView { selected: i == m.position, tag: i as u64, label: m.commands[i].name },
        ),
    }
}

impl State {
    /// What the display should show, as data: the mode indicator is
    /// `self.mode`, and these are the list rows. Pure read; the host
    /// adapter does the text layout.
    pub fn display_rows(&self) -> (rows: Vec<DisplayRow>)
        ensures
            rows.deep_view() == rows_spec(self@),
    {
        let mut rows: Vec<DisplayRow> = Vec::new();
        match self.mode {
            Mode::Pane => {
                let n = self.panes.len();
                let mut i: usize = 0;
                proof {
                    assert(rows.deep_view() =~= rows_spec(self@).take(0));
                }
                while i < n
                    invariant
                        n == self.panes@.len(),
                        i <= n,
                        self@.mode == Mode::Pane,
                        rows.deep_view() == rows_spec(self@).take(i as int),
                    decreases n - i,
                {
                    let ghost before = rows.deep_view();
                    let p = &self.panes[i];
                    rows.push(
                        DisplayRow {
                            selected: i == self.position,
                            tag: p.id as u64,
                            label: p.title.clone(),
                        },
                    );
                    proof {
                        assert(self@.panes[i as int] == self.panes@[i as int]@);
                        assert(rows.deep_view() =~= before.push(rows_spec(self@)[i as int]));
                        assert(rows_spec(self@).take(i + 1) =~= rows_spec(self@).take(
                            i as int,
                        ).push(rows_spec(self@)[i as int]));
                    }
                    i += 1;
                }
                proof {
                    assert(rows_spec(self@).take(n as int) =~= rows_spec(self@));
                }
            },
            Mode::Command => {
                let n = self.commands.len();
                let mut i: usize = 0;
                proof {
                    assert(rows.deep_view() =~= rows_spec(self@).take(0));
                }
                while i < n
                    invariant
                        n == self.commands@.len(),
                        i <= n,
                        self@.mode == Mode::Command,
                        rows.deep_view() == rows_spec(self@).take(i as int),
                    decreases n - i,
                {
                    let ghost before = rows.deep_view();
                    let c = &self.commands[i];
                    rows.push(
                        DisplayRow {
                            selected: i == self.position,
                            tag: i as u64,
                            label: c.name.clone(),
                        },
                    );
                    proof {
                        assert(self@.commands[i as int] == self.commands@[i as int]@);
                        assert(rows.deep_view() =~= before.push(rows_spec(self@)[i as int]));
                        assert(rows_spec(self@).take(i + 1) =~= rows_spec(self@).take(
                            i as int,
                        ).push(rows_spec(self@)[i as int]));
                    }
                    i += 1;
                }
                proof {
                    assert(rows_spec(self@).take(n as int) =~= rows_spec(self@));
                }
            },
        }
        rows
    }
}

/// Switching from pane browsing to command browsing and back resets the
/// cursor to the top at each switch, whatever it was before, and restores
/// pane mode.
pub proof fn lemma_mode_toggle_resets_cursor(
    s0: StateModel,
    s1: StateModel,
    s2: StateModel,
    r1: bool,
    c1: Seq<HostCallView>,
    r2: bool,
    c2: Seq<HostCallView>,
)
    requires
        s0.mode == Mode::Pane,
        step(s0, s1, Event::Key(Key::Right), r1, c1),
        step(s1, s2, Event::Key(Key::Left), r2, c2),
    ensures
        s1.mode == Mode::Command && s1.position == 0,
        s2.mode == Mode::Pane && s2.position == 0,
{
}

} // verus!
