//! The normalized command schema, its pre-order walk, and the metadata overlay that
//! decides which commands and arguments are exposed.

use vstd::prelude::*;
use crate::text::{str_eq, views};

verus! {

/// Long flag that switches a program into server mode.
pub const MCP_FLAG_LONG: &'static str = "mcp";

/// One argument of a command, as plain values.
#[derive(Debug, Clone)]
pub struct ClapArg {
    pub id: String,
    pub long: Option<String>,
    pub short: Option<char>,
    pub help: Option<String>,
    pub long_help: Option<String>,
    pub required: bool,
    pub global: bool,
    pub index: Option<usize>,
    pub action: Option<String>,
    pub value_names: Vec<String>,
    pub num_args: Option<String>,
}

/// A command and, recursively, its subcommands.
#[derive(Debug)]
pub struct ClapCommand {
    pub name: String,
    pub about: Option<String>,
    pub long_about: Option<String>,
    pub version: Option<String>,
    pub args: Vec<ClapArg>,
    pub subcommands: Vec<ClapCommand>,
}

/// The schema of a whole program: its root command.
#[derive(Debug)]
pub struct ClapSchema {
    pub root: ClapCommand,
}

pub ghost struct ArgView {
    pub id: Seq<char>,
    pub long: Option<Seq<char>>,
    pub short: Option<char>,
    pub help: Option<Seq<char>>,
    pub long_help: Option<Seq<char>>,
    pub required: bool,
    pub global: bool,
    pub index: Option<usize>,
    pub action: Option<Seq<char>>,
    pub value_names: Seq<Seq<char>>,
    pub num_args: Option<Seq<char>>,
}

pub ghost struct CommandView {
    pub name: Seq<char>,
    pub about: Option<Seq<char>>,
    pub long_about: Option<Seq<char>>,
    pub version: Option<Seq<char>>,
    pub args: Seq<ArgView>,
    pub subcommands: Seq<CommandView>,
}

pub open spec fn opt_view(o: Option<String>) -> Option<Seq<char>> {
    match o {
        Some(s) => Some(s@),
        None => None,
    }
}

impl View for ClapArg {
    type V = ArgView;

    open spec fn view(&self) -> ArgView {
        ArgView {
            id: self.id@,
            long: opt_view(self.long),
            short: self.short,
            help: opt_view(self.help),
            long_help: opt_view(self.long_help),
            required: self.required,
            global: self.global,
            index: self.index,
            action: opt_view(self.action),
            value_names: views(self.value_names@),
            num_args: opt_view(self.num_args),
        }
    }
}

pub open spec fn arg_views(s: Seq<ClapArg>) -> Seq<ArgView> {
    s.map_values(|a: ClapArg| a@)
}

pub open spec fn empty_command_view() -> CommandView {
    CommandView {
        name: Seq::empty(),
        about: None,
        long_about: None,
        version: None,
        args: Seq::empty(),
        subcommands: Seq::empty(),
    }
}

pub open spec fn command_view(c: ClapCommand) -> CommandView
    decreases c,
{
    CommandView {
        name: c.name@,
        about: opt_view(c.about),
        long_about: opt_view(c.long_about),
        version: opt_view(c.version),
        args: arg_views(c.args@),
        subcommands: Seq::new(
            c.subcommands@.len(),
            |i: int|
                if 0 <= i < c.subcommands@.len() {
                    command_view(c.subcommands@[i])
                } else {
                    empty_command_view()
                },
        ),
    }
}

impl View for ClapCommand {
    type V = CommandView;

    open spec fn view(&self) -> CommandView {
        command_view(*self)
    }
}

/// A command followed by all its descendants, each node before its children.
pub open spec fn preorder(c: CommandView) -> Seq<CommandView>
    decreases c,
{
    seq![c] + preorder_all(c.subcommands)
}

/// The pre-order walks of a list of sibling commands, one after the other.
pub open spec fn preorder_all(cs: Seq<CommandView>) -> Seq<CommandView>
    decreases cs,
{
    if cs.len() == 0 {
        Seq::empty()
    } else {
        preorder_all(cs.drop_last()) + preorder(cs.last())
    }
}

pub open spec fn ref_views(s: Seq<&ClapCommand>) -> Seq<CommandView> {
    s.map_values(|c: &ClapCommand| c@)
}

fn walk<'a>(cmd: &'a ClapCommand, acc: &mut Vec<&'a ClapCommand>)
    ensures
        ref_views(final(acc)@) == ref_views(old(acc)@) + preorder(cmd@),
    decreases cmd,
{
    let ghost start = ref_views(acc@);
    acc.push(cmd);
    assert(ref_views(acc@) == start + seq![cmd@]);
    let mut i: usize = 0;
    while i < cmd.subcommands.len()
        invariant
            i <= cmd.subcommands@.len(),
            ref_views(acc@) == start + seq![cmd@] + preorder_all(
                cmd@.subcommands.subrange(0, i as int),
            ),
        decreases cmd.subcommands@.len() - i,
    {
        let ghost before = ref_views(acc@);
        walk(&cmd.subcommands[i], acc);
        proof {
            let part = cmd@.subcommands.subrange(0, i + 1);
            assert(part.drop_last() == cmd@.subcommands.subrange(0, i as int));
            assert(part.last() == cmd.subcommands@[i as int]@);
        }
        i = i + 1;
    }
    assert(cmd@.subcommands.subrange(0, cmd@.subcommands.len() as int) == cmd@.subcommands);
}

impl ClapCommand {
    /// Returns this command and all its subcommands, depth first, each command
    /// before its children.
    pub fn all_commands(&self) -> (r: Vec<&ClapCommand>)
        ensures
            ref_views(r@) == preorder(self@),
    {
        let mut out: Vec<&ClapCommand> = Vec::new();
        walk(self, &mut out);
        assert(ref_views(out@) == Seq::<CommandView>::empty() + preorder(self@));
        assert(Seq::<CommandView>::empty() + preorder(self@) == preorder(self@));
        out
    }
}

/// Whether any of a command's long flags is `flag`; the server-mode flag is added
/// only to a command that does not have it yet.
pub fn declares_long_flag(longs: &Vec<Option<String>>, flag: &str) -> (r: bool)
    ensures
        r == exists|i: int| 0 <= i < longs@.len() && #[trigger] opt_view(longs@[i]) == Some(flag@),
{
    let mut i: usize = 0;
    while i < longs.len()
        invariant
            i <= longs@.len(),
            forall|k: int| 0 <= k < i ==> #[trigger] opt_view(longs@[k]) != Some(flag@),
        decreases longs.len() - i,
    {
        match &longs[i] {
            Some(l) => {
                if str_eq(l.as_str(), flag) {
                    assert(opt_view(longs@[i as int]) == Some(flag@));
                    return true;
                }
            },
            None => {},
        }
        i = i + 1;
    }
    false
}

/// Argument ids that carry no meaning as a tool parameter: help, version and the
/// server-mode flag.
pub open spec fn builtin_id(id: Seq<char>) -> bool {
    id == "help"@ || id == "version"@ || id == MCP_FLAG_LONG@
}

/// Whether an argument id is built in (help, version or the server-mode flag).
pub fn is_builtin_arg(id: &str) -> (r: bool)
    ensures
        r == builtin_id(id@),
{
    str_eq(id, "help") || str_eq(id, "version") || str_eq(id, MCP_FLAG_LONG)
}

proof fn lemma_member_of_all(cs: Seq<CommandView>, j: int)
    requires
        0 <= j < cs.len(),
    ensures
        exists|k: int| 0 <= k < preorder_all(cs).len() && preorder_all(cs)[k] == cs[j],
    decreases cs.len(),
{
    let a = preorder_all(cs.drop_last());
    let b = preorder(cs.last());
    if j == cs.len() - 1 {
        assert(b[0] == cs.last());
        assert(preorder_all(cs)[a.len() as int] == cs[j]);
    } else {
        lemma_member_of_all(cs.drop_last(), j);
        let k = choose|k: int| 0 <= k < a.len() && a[k] == cs.drop_last()[j];
        assert(preorder_all(cs)[k] == cs[j]);
    }
}

/// In a pre-order walk every child of a node appears after that node.
pub proof fn lemma_child_after(c: CommandView, i: int, j: int)
    requires
        0 <= i < preorder(c).len(),
        0 <= j < preorder(c)[i].subcommands.len(),
    ensures
        exists|k: int| i < k < preorder(c).len() && #[trigger] preorder(c)[k] == preorder(c)[i].subcommands[j],
    decreases c,
{
    let rest = preorder_all(c.subcommands);
    assert(preorder(c) == seq![c] + rest);
    if i == 0 {
        lemma_member_of_all(c.subcommands, j);
        let k = choose|k: int| 0 <= k < rest.len() && rest[k] == c.subcommands[j];
        assert(preorder(c)[k + 1] == rest[k]);
    } else {
        assert(preorder(c)[i] == rest[i - 1]);
        lemma_child_after_all(c.subcommands, i - 1, j);
        let k = choose|k: int| i - 1 < k < rest.len() && #[trigger] rest[k] == rest[i - 1].subcommands[j];
        assert(preorder(c)[k + 1] == rest[k]);
    }
}

/// In the walks of a list of siblings every child of a node appears after that node.
pub proof fn lemma_child_after_all(cs: Seq<CommandView>, i: int, j: int)
    requires
        0 <= i < preorder_all(cs).len(),
        0 <= j < preorder_all(cs)[i].subcommands.len(),
    ensures
        exists|k: int| i < k < preorder_all(cs).len() && #[trigger] preorder_all(cs)[k] == preorder_all(cs)[i].subcommands[j],
    decreases cs,
{
    let a = preorder_all(cs.drop_last());
    let b = preorder(cs.last());
    let all = preorder_all(cs);
    assert(all == a + b);
    if i < a.len() {
        assert(all[i] == a[i]);
        lemma_child_after_all(cs.drop_last(), i, j);
        let k = choose|k: int| i < k < a.len() && #[trigger] a[k] == a[i].subcommands[j];
        assert(all[k] == a[k]);
    } else {
        let i2 = i - a.len();
        assert(all[i] == b[i2]);
        lemma_child_after(cs.last(), i2, j);
        let k = choose|k: int| i2 < k < b.len() && #[trigger] b[k] == b[i2].subcommands[j];
        assert(all[k + a.len()] == b[k]);
    }
}

/// Child `j` of the node at position `i` of a walk appears later in the walk.
pub open spec fn child_after(s: Seq<CommandView>, i: int, j: int) -> bool {
    exists|k: int| i < k < s.len() && s[k] == s[i].subcommands[j]
}

/// The walk of `all_commands` is pre-order and fixed by the command alone: the
/// command itself comes first, every node comes before each of its children, and
/// commands with equal views give equal walks, so repeated calls agree.
pub proof fn lemma_all_commands_preorder(c: ClapCommand, d: ClapCommand)
    requires
        c@ == d@,
    ensures
        preorder(c@)[0] == c@,
        forall|i: int, j: int|
            0 <= i < preorder(c@).len() && 0 <= j < preorder(c@)[i].subcommands.len()
            ==> #[trigger] child_after(preorder(c@), i, j),
        preorder(c@) == preorder(d@),
{
    assert forall|i: int, j: int|
        0 <= i < preorder(c@).len() && 0 <= j < preorder(c@)[i].subcommands.len()
        implies #[trigger] child_after(preorder(c@), i, j) by {
        lemma_child_after(c@, i, j);
    }
}

} // verus!
