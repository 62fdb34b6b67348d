//! The remote-control protocol: `zjpane::<action>::<payload>` messages and
//! the host calls they trigger, independent of cursor position and mode.

use vstd::prelude::*;
use crate::pane::{PaneRecord, PaneView};
use crate::strutil::{parse_usize, parse_usize_spec, split_spec, split_str, str_eq};
use crate::user_command::{CommandView, UserCommand};

verus! {

/// A call for the host to perform: focus a pane (the flag asks the host
/// not to take focus away from other floating panes), hide the
/// controller's own surface, or spawn a command in a floating pane with
/// the given executable path and argument list.
#[derive(Debug, PartialEq)]
pub enum HostCall {
    FocusPane(u32, bool),
    HideSelf,
    RunCommandFloating(String, Vec<String>),
}

/// Mathematical model of a `HostCall`.
#[verifier::ext_equal]
pub enum HostCallView {
    FocusPane(u32, bool),
    HideSelf,
    RunCommandFloating(Seq<char>, Seq<Seq<char>>),
}

impl View for HostCall {
    type V = HostCallView;

    open spec fn view(&self) -> HostCallView {
        match self {
            HostCall::FocusPane(id, flag) => HostCallView::FocusPane(*id, *flag),
            HostCall::HideSelf => HostCallView::HideSelf,
            HostCall::RunCommandFloating(exe, rest) => HostCallView::RunCommandFloating(
                exe@,
                rest.deep_view(),
            ),
        }
    }
}

impl DeepView for HostCall {
    type V = HostCallView;

    open spec fn deep_view(&self) -> HostCallView {
        self.view()
    }
}

/// Running a command spawns its first token as the executable and the
/// rest as arguments; a command with no tokens is inert and asks nothing
/// of the host.
pub open spec fn run_calls(c: CommandView) -> Seq<HostCallView> {
    if c.args.len() == 0 {
        Seq::empty()
    } else {
        seq![HostCallView::RunCommandFloating(c.args[0], c.args.skip(1))]
    }
}

/// The first pane whose title is exactly `title`, if any.
pub open spec fn find_pane(panes: Seq<PaneView>, title: Seq<char>) -> Option<PaneView>
    decreases panes.len(),
{
    if panes.len() == 0 {
        None
    } else if panes[0].title == title {
        Some(panes[0])
    } else {
        find_pane(panes.drop_first(), title)
    }
}

/// The first command whose name is exactly `name`, if any.
pub open spec fn find_command(commands: Seq<CommandView>, name: Seq<char>) -> Option<CommandView>
    decreases commands.len(),
{
    if commands.len() == 0 {
        None
    } else if commands[0].name == name {
        Some(commands[0])
    } else {
        find_command(commands.drop_first(), name)
    }
}

/// What a pipe message asks of the host. A message that does not carry the
/// `zjpane` prefix with at least three `::`-separated parts, names an
/// unknown action, gives an out-of-range or non-numeric index, or names a
/// missing title or command, asks nothing.
pub open spec fn pipe_calls(
    panes: Seq<PaneView>,
    commands: Seq<CommandView>,
    input: Seq<char>,
) -> Seq<HostCallView> {
    let parts = split_spec(input, "::"@);
    if parts.len() < 3 || parts[0] != "zjpane"@ {
        Seq::empty()
    } else {
        let action = parts[1];
        let payload = parts[2];
        if action == "focus_at"@ {
            match parse_usize_spec(payload) {
                Some(i) => if (i as nat) < panes.len() {
                    seq![HostCallView::FocusPane(panes[i as int].id, false)]
                } else {
                    Seq::empty()
                },
                None => Seq::empty(),
            }
        } else if action == "focus"@ {
            match find_pane(panes, payload) {
                Some(p) => seq![HostCallView::FocusPane(p.id, false)],
                None => Seq::empty(),
            }
        } else if action == "execute_at"@ {
            match parse_usize_spec(payload) {
                Some(i) => if (i as nat) < commands.len() {
                    run_calls(commands[i as int])
                } else {
                    Seq::empty()
                },
                None => Seq::empty(),
            }
        } else if action == "execute"@ {
            match find_command(commands, payload) {
                Some(c) => run_calls(c),
                None => Seq::empty(),
            }
        } else {
            Seq::empty()
        }
    }
}

/// The host calls that run `c`: empty when the command has no tokens.
pub fn run_command_calls(c: &UserCommand) -> (r: Vec<HostCall>)
    ensures
        r.deep_view() == run_calls(c@),
{
    let mut out: Vec<HostCall> = Vec::new();
    if c.args.len() == 0 {
        proof {
            assert(out.deep_view() =~= Seq::<HostCallView>::empty());
        }
        return out;
    }
    let exe = c.args[0].clone();
    let mut rest: Vec<String> = Vec::new();
    let n = c.args.len();
    let mut j: usize = 1;
    proof {
        assert(rest.deep_view() =~= c.args.deep_view().subrange(1, 1));
    }
    while j < n
        invariant
            n == c.args@.len(),
            1 <= j <= n,
            rest.deep_view() == c.args.deep_view().subrange(1, j as int),
        decreases n - j,
    {
        let ghost before = rest.deep_view();
        rest.push(c.args[j].clone());
        proof {
            assert(c.args@[j as int]@ == c.args.deep_view()[j as int]);
            assert(rest.deep_view() =~= before.push(c.args.deep_view()[j as int]));
            assert(rest.deep_view() =~= c.args.deep_view().subrange(1, j + 1));
        }
        j += 1;
    }
    out.push(HostCall::RunCommandFloating(exe, rest));
    proof {
        assert(c.args.deep_view().subrange(1, n as int) =~= c.args.deep_view().skip(1));
        assert(out.deep_view() =~= seq![
            HostCallView::RunCommandFloating(c@.args[0], c@.args.skip(1)),
        ]);
    }
    out
}

/// Index of the first pane titled `title`, scanning forward.
pub fn find_pane_index(panes: &Vec<PaneRecord>, title: &str) -> (r: Option<usize>)
    ensures
        match r {
            Some(j) => j < panes@.len() && find_pane(panes.deep_view(), title@) == Some(
                panes@[j as int]@,
            ),
            None => find_pane(panes.deep_view(), title@) is None,
        },
{
    let ghost dv = panes.deep_view();
    let n = panes.len();
    let mut j: usize = 0;
    proof {
        assert(dv.skip(0) =~= dv);
    }
    while j < n
        invariant
            n == panes@.len(),
            j <= n,
            dv == panes.deep_view(),
            dv.len() == n,
            find_pane(dv, title@) == find_pane(dv.skip(j as int), title@),
        decreases n - j,
    {
        proof {
            assert(dv.skip(j as int)[0] == dv[j as int]);
            assert(dv.skip(j as int).drop_first() =~= dv.skip(j + 1));
            assert(dv[j as int] == panes@[j as int]@);
        }
        if str_eq(panes[j].title.as_str(), title) {
            return Some(j);
        }
        j += 1;
    }
    proof {
        assert(dv.skip(n as int).len() == 0);
    }
    None
}

/// First command named `name`, scanning forward, as an index.
pub fn find_command_pos(commands: &Vec<UserCommand>, name: &str) -> (r: Option<usize>)
    ensures
        match r {
            Some(j) => j < commands@.len() && find_command(commands.deep_view(), name@) == Some(
                commands@[j as int]@,
            ),
            None => find_command(commands.deep_view(), name@) is None,
        },
{
    let ghost dv = commands.deep_view();
    let n = commands.len();
    let mut j: usize = 0;
    proof {
        assert(dv.skip(0) =~= dv);
    }
    while j < n
        invariant
            n == commands@.len(),
            j <= n,
            dv == commands.deep_view(),
            dv.len() == n,
            find_command(dv, name@) == find_command(dv.skip(j as int), name@),
        decreases n - j,
    {
        proof {
            assert(dv.skip(j as int)[0] == dv[j as int]);
            assert(dv.skip(j as int).drop_first() =~= dv.skip(j + 1));
            assert(dv[j as int] == commands@[j as int]@);
        }
        if str_eq(commands[j].name.as_str(), name) {
            return Some(j);
        }
        j += 1;
    }
    proof {
        assert(dv.skip(n as int).len() == 0);
    }
    None
}

/// Parses one pipe message against the given pane and command lists and
/// returns the host calls it asks for.
pub fn pipe_actions(panes: &Vec<PaneRecord>, commands: &Vec<UserCommand>, input: &str) -> (r: Vec<
    HostCall,
>)
    ensures
        r.deep_view() == pipe_calls(panes.deep_view(), commands.deep_view(), input@),
{
    proof {
        reveal_strlit("::");
    }
    let parts = split_str(input, "::");
    let ghost sparts = split_spec(input@, "::"@);
    let mut out: Vec<HostCall> = Vec::new();
    proof {
        assert(out.deep_view() =~= Seq::<HostCallView>::empty());
    }
    if parts.len() < 3 {
        return out;
    }
    proof {
        assert(parts.deep_view()[0] == parts@[0]@);
        assert(parts.deep_view()[1] == parts@[1]@);
        assert(parts.deep_view()[2] == parts@[2]@);
    }
    if !str_eq(parts[0].as_str(), "zjpane") {
        return out;
    }
    let action = parts[1].as_str();
    let payload = parts[2].as_str();
    if str_eq(action, "focus_at") {
        match parse_usize(payload) {
            Some(i) => {
                if i < panes.len() {
                    proof {
                        assert(panes@[i as int]@ == panes.deep_view()[i as int]);
                    }
                    out.push(HostCall::FocusPane(panes[i].id, false));
                    proof {
                        assert(out.deep_view() =~= seq![
                            HostCallView::FocusPane(panes.deep_view()[i as int].id, false),
                        ]);
                    }
                }
            },
            None => {},
        }
    } else if str_eq(action, "focus") {
        match find_pane_index(panes, payload) {
            Some(j) => {
                out.push(HostCall::FocusPane(panes[j].id, false));
                proof {
                    assert(panes@[j as int]@ == panes.deep_view()[j as int]);
                    assert(out.deep_view() =~= seq![
                        HostCallView::FocusPane(panes@[j as int]@.id, false),
                    ]);
                }
            },
            None => {},
        }
    } else if str_eq(action, "execute_at") {
        match parse_usize(payload) {
            Some(i) => {
                if i < commands.len() {
                    proof {
                        assert(commands@[i as int]@ == commands.deep_view()[i as int]);
                    }
                    out = run_command_calls(&commands[i]);
                }
            },
            None => {},
        }
    } else if str_eq(action, "execute") {
        match find_command_pos(commands, payload) {
            Some(j) => {
                proof {
                    assert(commands@[j as int]@ == commands.deep_view()[j as int]);
                }
                out = run_command_calls(&commands[j]);
            },
            None => {},
        }
    }
    out
}

} // verus!
