//! User-configured commands: named shell command lines, tokenized with
//! POSIX-shell word splitting, collected from flat key/value configuration
//! under the `command_<name>_command` key convention.

use vstd::prelude::*;
use crate::strutil::{ends_with_spec, split_spec, split_str, starts_with_spec, str_ends_with,
    str_eq, str_starts_with};

verus! {

/// A named, runnable shell command: the first argument token is the
/// executable path, the rest are its arguments. A command with no tokens
/// is inert: running it is a no-op.
#[derive(Debug, PartialEq)]
pub struct UserCommand {
    pub name: String,
    pub args: Vec<String>,
}

/// Mathematical model of a `UserCommand`.
#[verifier::ext_equal]
pub struct CommandView {
    pub name: Seq<char>,
    pub args: Seq<Seq<char>>,
}

impl View for UserCommand {
    type V = CommandView;

    open spec fn view(&self) -> CommandView {
        CommandView { name: self.name@, args: self.args.deep_view() }
    }
}

impl DeepView for UserCommand {
    type V = CommandView;

    open spec fn deep_view(&self) -> CommandView {
        self.view()
    }
}

/// The words that POSIX-shell word splitting yields on a command line
/// (for an erroneous line, such as one with an unclosed quote, the words
/// read up to the error).
pub uninterp spec fn shell_words_of(s: Seq<char>) -> Seq<Seq<char>>;

/// Relies on shlex::Shlex: an iterator that splits its input string into
/// words using POSIX-shell syntax (quoting, escaping, whitespace); the
/// collected words are a function of the input string alone.
#[verifier::external_body]
fn shell_words(s: &str) -> (r: Vec<String>)
    ensures
        r.deep_view() == shell_words_of(s@),
{
    shlex::Shlex::new(s).collect()
}

impl UserCommand {
    /// Replaces the argument tokens with the shell words of `command`.
    pub fn set_command(&mut self, command: &str)
        ensures
            final(self).name == old(self).name,
            final(self)@.args == shell_words_of(command@),
    {
        self.args = shell_words(command);
    }
}

/// Index of the first command carrying `name`, if any.
pub open spec fn named_index(cmds: Seq<CommandView>, name: Seq<char>) -> Option<int>
    decreases cmds.len(),
{
    if cmds.len() == 0 {
        None
    } else if cmds[0].name == name {
        Some(0)
    } else {
        match named_index(cmds.drop_first(), name) {
            Some(i) => Some(i + 1),
            None => None,
        }
    }
}

pub proof fn lemma_named_index_in_range(cmds: Seq<CommandView>, name: Seq<char>)
    ensures
        match named_index(cmds, name) {
            Some(i) => 0 <= i < cmds.len() && cmds[i].name == name,
            None => forall|k: int| 0 <= k < cmds.len() ==> (#[trigger] cmds[k]).name != name,
        },
    decreases cmds.len(),
{
    if cmds.len() > 0 {
        lemma_named_index_in_range(cmds.drop_first(), name);
        assert(forall|k: int|
            0 < k < cmds.len() ==> cmds.drop_first()[k - 1] == #[trigger] cmds[k]);
    }
}

pub proof fn lemma_named_index_push(cmds: Seq<CommandView>, c: CommandView, name: Seq<char>)
    ensures
        named_index(cmds.push(c), name) == (match named_index(cmds, name) {
            Some(i) => Some(i),
            None => if c.name == name {
                Some(cmds.len() as int)
            } else {
                None::<int>
            },
        }),
    decreases cmds.len(),
{
    if cmds.len() == 0 {
        assert(cmds.push(c)[0] == c);
        assert(cmds.push(c).drop_first() =~= Seq::<CommandView>::empty());
        if c.name != name {
            assert(named_index(cmds.push(c).drop_first(), name) is None);
        }
    } else {
        lemma_named_index_push(cmds.drop_first(), c, name);
        assert(cmds.push(c)[0] == cmds[0]);
        assert(cmds.push(c).drop_first() =~= cmds.drop_first().push(c));
        assert(named_index(cmds.push(c).drop_first(), name) == named_index(
            cmds.drop_first().push(c),
            name,
        ));
        if cmds[0].name != name {
            assert(named_index(cmds.push(c), name) == (match named_index(
                cmds.drop_first().push(c),
                name,
            ) {
                Some(i) => Some(i + 1),
                None => None::<int>,
            }));
        }
    }
}

/// How one configuration pair changes the registry. A key of the shape
/// `command_<name>...` names a command; the first pair naming `<name>`
/// creates its entry, and a key that also ends in `_command` replaces the
/// entry's argument tokens with the shell words of the pair's value.
pub open spec fn registry_step(acc: Seq<CommandView>, key: Seq<char>, value: Seq<char>) -> Seq<
    CommandView,
> {
    if !starts_with_spec(key, "command_"@) {
        acc
    } else {
        let parts = split_spec(key, "_"@);
        if parts.len() < 2 {
            acc
        } else {
            let name = parts[1];
            let acc1 = if named_index(acc, name) is Some {
                acc
            } else {
                acc.push(CommandView { name: name, args: Seq::empty() })
            };
            match named_index(acc1, name) {
                Some(i) => if ends_with_spec(key, "_command"@) {
                    acc1.update(i, CommandView { name: acc1[i].name, args: shell_words_of(value) })
                } else {
                    acc1
                },
                None => acc1,
            }
        }
    }
}

/// The registry after consuming the configuration pairs in order.
pub open spec fn registry_fold(acc: Seq<CommandView>, pairs: Seq<(String, String)>) -> Seq<
    CommandView,
>
    decreases pairs.len(),
{
    if pairs.len() == 0 {
        acc
    } else {
        registry_step(registry_fold(acc, pairs.drop_last()), pairs.last().0@, pairs.last().1@)
    }
}

/// No two commands share a name.
pub open spec fn unique_names(cmds: Seq<CommandView>) -> bool {
    forall|i: int, j: int|
        0 <= i < j < cmds.len() ==> (#[trigger] cmds[i]).name != (#[trigger] cmds[j]).name
}

pub proof fn lemma_registry_step_unique(acc: Seq<CommandView>, key: Seq<char>, value: Seq<char>)
    requires
        unique_names(acc),
    ensures
        unique_names(registry_step(acc, key, value)),
{
    if starts_with_spec(key, "command_"@) {
        let parts = split_spec(key, "_"@);
        if parts.len() >= 2 {
            let name = parts[1];
            lemma_named_index_in_range(acc, name);
            let acc1 = if named_index(acc, name) is Some {
                acc
            } else {
                acc.push(CommandView { name: name, args: Seq::empty() })
            };
            assert(unique_names(acc1)) by {
                if named_index(acc, name) is None {
                    assert(forall|i: int|
                        0 <= i < acc.len() ==> (#[trigger] acc1[i]) == acc[i]);
                    assert(acc1[acc.len() as int].name == name);
                }
            }
            lemma_named_index_in_range(acc1, name);
            match named_index(acc1, name) {
                Some(i) => {
                    if ends_with_spec(key, "_command"@) {
                        let upd = acc1.update(
                            i,
                            CommandView { name: acc1[i].name, args: shell_words_of(value) },
                        );
                        assert(forall|k: int|
                            0 <= k < upd.len() ==> (#[trigger] upd[k]).name == acc1[k].name);
                    }
                },
                None => {},
            }
        }
    }
}

pub proof fn lemma_registry_fold_unique(acc: Seq<CommandView>, pairs: Seq<(String, String)>)
    requires
        unique_names(acc),
    ensures
        unique_names(registry_fold(acc, pairs)),
    decreases pairs.len(),
{
    if pairs.len() > 0 {
        lemma_registry_fold_unique(acc, pairs.drop_last());
        lemma_registry_step_unique(
            registry_fold(acc, pairs.drop_last()),
            pairs.last().0@,
            pairs.last().1@,
        );
    }
}

/// Built from any configuration, the registry never holds two commands
/// with the same name.
pub proof fn lemma_registry_unique_names(pairs: Seq<(String, String)>)
    ensures
        unique_names(registry_fold(Seq::empty(), pairs)),
{
    lemma_registry_fold_unique(Seq::empty(), pairs);
}

pub proof fn lemma_registry_step_len(acc: Seq<CommandView>, key: Seq<char>, value: Seq<char>)
    ensures
        registry_step(acc, key, value).len() >= acc.len(),
{
    if starts_with_spec(key, "command_"@) {
        let parts = split_spec(key, "_"@);
        if parts.len() >= 2 {
            let name = parts[1];
            let acc1 = if named_index(acc, name) is Some {
                acc
            } else {
                acc.push(CommandView { name: name, args: Seq::empty() })
            };
            assert(acc1.len() >= acc.len());
            lemma_named_index_in_range(acc1, name);
            match named_index(acc1, name) {
                Some(i) => {
                    assert(acc1.update(
                        i,
                        CommandView { name: acc1[i].name, args: shell_words_of(value) },
                    ).len() == acc1.len());
                },
                None => {},
            }
        }
    }
}

pub proof fn lemma_registry_fold_len(acc: Seq<CommandView>, pairs: Seq<(String, String)>)
    ensures
        registry_fold(acc, pairs).len() >= acc.len(),
    decreases pairs.len(),
{
    if pairs.len() > 0 {
        lemma_registry_fold_len(acc, pairs.drop_last());
        lemma_registry_step_len(
            registry_fold(acc, pairs.drop_last()),
            pairs.last().0@,
            pairs.last().1@,
        );
    }
}

/// Index of the first command named `name`, scanning forward.
pub fn find_command_index(cmds: &Vec<UserCommand>, name: &str) -> (r: Option<usize>)
    ensures
        match r {
            Some(j) => j < cmds@.len() && named_index(cmds.deep_view(), name@) == Some(j as int),
            None => named_index(cmds.deep_view(), name@) is None,
        },
{
    let ghost dv = cmds.deep_view();
    let n = cmds.len();
    let mut j: usize = 0;
    proof {
        assert(dv.skip(0) =~= dv);
    }
    while j < n
        invariant
            n == cmds@.len(),
            j <= n,
            dv == cmds.deep_view(),
            dv.len() == n,
            named_index(dv, name@) == (match named_index(dv.skip(j as int), name@) {
                Some(i) => Some(i + j),
                None => None::<int>,
            }),
        decreases n - j,
    {
        proof {
            assert(dv.skip(j as int)[0] == dv[j as int]);
            assert(dv.skip(j as int).drop_first() =~= dv.skip(j + 1));
            assert(dv[j as int] == cmds@[j as int]@);
        }
        if str_eq(cmds[j].name.as_str(), name) {
            return Some(j);
        }
        j += 1;
    }
    proof {
        assert(dv.skip(n as int).len() == 0);
    }
    None
}

/// Applies flat key/value configuration pairs to the command list, in
/// order.
pub fn apply_config(commands: &mut Vec<UserCommand>, pairs: &Vec<(String, String)>)
    ensures
        final(commands).deep_view() == registry_fold(old(commands).deep_view(), pairs@),
{
    let ghost orig = old(commands).deep_view();
    let n = pairs.len();
    let mut i: usize = 0;
    proof {
        assert(pairs@.take(0) =~= Seq::<(String, String)>::empty());
    }
    while i < n
        invariant
            n == pairs@.len(),
            i <= n,
            commands.deep_view() == registry_fold(orig, pairs@.take(i as int)),
        decreases n - i,
    {
        proof {
            assert(pairs@.take(i + 1).drop_last() =~= pairs@.take(i as int));
            assert(pairs@.take(i + 1).last() == pairs@[i as int]);
        }
        let ghost acc = commands.deep_view();
        let key = &pairs[i].0;
        if str_starts_with(key.as_str(), "command_") {
            proof {
                reveal_strlit("_");
            }
            let parts = split_str(key.as_str(), "_");
            if parts.len() >= 2 {
                let name = &parts[1];
                proof {
                    assert(parts.deep_view()[1] == parts@[1]@);
                }
                let idx: usize = match find_command_index(commands, name.as_str()) {
                    Some(j) => j,
                    None => {
                        let ghost before = commands.deep_view();
                        let fresh = UserCommand { name: name.clone(), args: Vec::new() };
                        proof {
                            assert(fresh@.args =~= Seq::<Seq<char>>::empty());
                            assert(fresh@ =~= CommandView { name: name@, args: Seq::empty() });
                        }
                        let at = commands.len();
                        commands.push(fresh);
                        proof {
                            assert(commands.deep_view() =~= before.push(
                                CommandView { name: name@, args: Seq::empty() },
                            ));
                            lemma_named_index_push(
                                before,
                                CommandView { name: name@, args: Seq::empty() },
                                name@,
                            );
                        }
                        at
                    },
                };
                let ghost acc1 = commands.deep_view();
                proof {
                    lemma_named_index_in_range(acc1, name@);
                    assert(named_index(acc1, name@) == Some(idx as int));
                }
                if str_ends_with(key.as_str(), "_command") {
                    let ghost before = commands.deep_view();
                    let mut entry = commands.remove(idx);
                    entry.set_command(pairs[i].1.as_str());
                    commands.insert(idx, entry);
                    proof {
                        assert(commands.deep_view() =~= before.update(
                            idx as int,
                            CommandView {
                                name: before[idx as int].name,
                                args: shell_words_of(pairs@[i as int].1@),
                            },
                        ));
                    }
                }
                proof {
                    assert(commands.deep_view() =~= registry_step(
                        acc,
                        pairs@[i as int].0@,
                        pairs@[i as int].1@,
                    ));
                }
            }
        }
        proof {
            assert(commands.deep_view() =~= registry_step(
                acc,
                pairs@[i as int].0@,
                pairs@[i as int].1@,
            ));
        }
        i += 1;
    }
    proof {
        assert(pairs@.take(n as int) =~= pairs@);
    }
}

} // verus!
