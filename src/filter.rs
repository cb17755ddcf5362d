//! The metadata overlay: skipped commands, skipped and forced-required arguments,
//! and the stable ordering of each command's arguments.

use vstd::prelude::*;
use crate::schema::{
    arg_views, builtin_id, is_builtin_arg, opt_view, ArgView, ClapArg, ClapCommand,
    ClapSchema, CommandView,
};
use crate::text::{lex_le, lemma_lex_le_total, str_eq, text_le, views};

verus! {

/// Overlays that adjust which commands and arguments are exposed, built once at startup.
#[derive(Debug, Clone)]
pub struct ClapMcpSchemaMetadata {
    /// Names of commands to leave out, with all their subcommands.
    pub skip_commands: Vec<String>,
    /// Per command name, argument ids to leave out.
    pub skip_args: Vec<(String, Vec<String>)>,
    /// Per command name, argument ids to mark as required.
    pub requires_args: Vec<(String, Vec<String>)>,
    /// Leave the root out of the tool list when it has subcommands.
    pub skip_root_command_when_subcommands: bool,
    /// A JSON schema of tool output, attached to every tool.
    pub output_schema: Option<serde_json::Value>,
}

pub ghost struct MetadataView {
    pub skip_commands: Seq<Seq<char>>,
    pub skip_args: Seq<(Seq<char>, Seq<Seq<char>>)>,
    pub requires_args: Seq<(Seq<char>, Seq<Seq<char>>)>,
    pub skip_root: bool,
}

pub open spec fn overlay_view(entries: Seq<(String, Vec<String>)>) -> Seq<(Seq<char>, Seq<Seq<char>>)> {
    entries.map_values(|e: (String, Vec<String>)| (e.0@, views(e.1@)))
}

impl View for ClapMcpSchemaMetadata {
    type V = MetadataView;

    open spec fn view(&self) -> MetadataView {
        MetadataView {
            skip_commands: views(self.skip_commands@),
            skip_args: overlay_view(self.skip_args@),
            requires_args: overlay_view(self.requires_args@),
            skip_root: self.skip_root_command_when_subcommands,
        }
    }
}

impl Default for ClapMcpSchemaMetadata {
    fn default() -> (r: Self)
        ensures
            r@.skip_commands.len() == 0,
            r@.skip_args.len() == 0,
            r@.requires_args.len() == 0,
            !r.skip_root_command_when_subcommands,
            r.output_schema.is_none(),
    {
        ClapMcpSchemaMetadata {
            skip_commands: Vec::new(),
            skip_args: Vec::new(),
            requires_args: Vec::new(),
            skip_root_command_when_subcommands: false,
            output_schema: None,
        }
    }
}

/// Gives the schema metadata that a program declares for itself.
pub trait ClapMcpSchemaMetadataProvider {
    fn clap_mcp_schema_metadata() -> ClapMcpSchemaMetadata;
}

/// Whether an overlay lists argument `id` under command `cmd`.
pub open spec fn overlay_lists(entries: Seq<(Seq<char>, Seq<Seq<char>>)>, cmd: Seq<char>, id: Seq<char>) -> bool {
    exists|i: int| 0 <= i < entries.len() && entries[i].0 == cmd && #[trigger] entries[i].1.contains(id)
}

/// An argument stays in the schema when it is not built in and not skipped.
pub open spec fn arg_kept(m: MetadataView, cmd: Seq<char>, a: ArgView) -> bool {
    !builtin_id(a.id) && !overlay_lists(m.skip_args, cmd, a.id)
}

/// An argument with its forced-required overlay applied.
pub open spec fn with_overlay(m: MetadataView, cmd: Seq<char>, a: ArgView) -> ArgView {
    ArgView { required: a.required || overlay_lists(m.requires_args, cmd, a.id), ..a }
}

/// The kept arguments of a command, in schema order, with overlays applied.
pub open spec fn adjusted_args(args: Seq<ArgView>, m: MetadataView, cmd: Seq<char>) -> Seq<ArgView>
    decreases args.len(),
{
    if args.len() == 0 {
        Seq::empty()
    } else {
        let rest = adjusted_args(args.drop_last(), m, cmd);
        if arg_kept(m, cmd, args.last()) {
            rest.push(with_overlay(m, cmd, args.last()))
        } else {
            rest
        }
    }
}

/// `x` placed after every element of the sorted `s` whose id is not above its own.
pub open spec fn insert_by_id(s: Seq<ArgView>, x: ArgView) -> Seq<ArgView>
    decreases s.len(),
{
    if s.len() == 0 {
        seq![x]
    } else if lex_le(s.last().id, x.id) {
        s.push(x)
    } else {
        insert_by_id(s.drop_last(), x).push(s.last())
    }
}

/// Arguments ordered by id; arguments with equal ids keep their relative order.
pub open spec fn sort_by_id(s: Seq<ArgView>) -> Seq<ArgView>
    decreases s.len(),
{
    if s.len() == 0 {
        Seq::empty()
    } else {
        insert_by_id(sort_by_id(s.drop_last()), s.last())
    }
}

pub open spec fn sorted_by_id(s: Seq<ArgView>) -> bool {
    forall|i: int| 0 <= i < s.len() - 1 ==> lex_le(#[trigger] s[i].id, s[i + 1].id)
}

/// A command with the overlay applied to itself and to all its descendants.
pub open spec fn filtered_command(c: CommandView, m: MetadataView) -> CommandView
    decreases c,
{
    CommandView {
        args: sort_by_id(adjusted_args(c.args, m, c.name)),
        subcommands: filtered_children(c.subcommands, m),
        ..c
    }
}

/// The siblings that are not skipped, each filtered, in their given order.
pub open spec fn filtered_children(cs: Seq<CommandView>, m: MetadataView) -> Seq<CommandView>
    decreases cs,
{
    if cs.len() == 0 {
        Seq::empty()
    } else {
        let rest = filtered_children(cs.drop_last(), m);
        if m.skip_commands.contains(cs.last().name) {
            rest
        } else {
            rest.push(filtered_command(cs.last(), m))
        }
    }
}

fn contains_text(list: &Vec<String>, x: &str) -> (r: bool)
    ensures
        r == views(list@).contains(x@),
{
    let mut i: usize = 0;
    while i < list.len()
        invariant
            i <= list@.len(),
            forall|j: int| 0 <= j < i ==> list@[j]@ != x@,
        decreases list.len() - i,
    {
        if str_eq(list[i].as_str(), x) {
            assert(views(list@)[i as int] == x@);
            return true;
        }
        i = i + 1;
    }
    assert(!views(list@).contains(x@)) by {
        if views(list@).contains(x@) {
            let k = choose|k: int| 0 <= k < views(list@).len() && views(list@)[k] == x@;
            assert(list@[k]@ == x@);
        }
    }
    false
}

fn overlay_has(entries: &Vec<(String, Vec<String>)>, cmd: &str, id: &str) -> (r: bool)
    ensures
        r == overlay_lists(overlay_view(entries@), cmd@, id@),
{
    let ghost ov = overlay_view(entries@);
    let mut i: usize = 0;
    while i < entries.len()
        invariant
            i <= entries@.len(),
            ov == overlay_view(entries@),
            forall|j: int| 0 <= j < i ==> !(ov[j].0 == cmd@ && ov[j].1.contains(id@)),
        decreases entries.len() - i,
    {
        if str_eq(entries[i].0.as_str(), cmd) && contains_text(&entries[i].1, id) {
            assert(ov[i as int].1.contains(id@));
            return true;
        }
        i = i + 1;
    }
    false
}

/// Copies an optional string.
pub fn copy_text_option(o: &Option<String>) -> (r: Option<String>)
    ensures
        opt_view(r) == opt_view(*o),
{
    match o {
        Some(s) => Some(s.clone()),
        None => None,
    }
}

fn copy_texts(v: &Vec<String>) -> (r: Vec<String>)
    ensures
        views(r@) == views(v@),
{
    let mut out: Vec<String> = Vec::new();
    let mut i: usize = 0;
    while i < v.len()
        invariant
            i <= v@.len(),
            views(out@) == views(v@.subrange(0, i as int)),
        decreases v.len() - i,
    {
        out.push(v[i].clone());
        assert(views(v@.subrange(0, i + 1)) == views(v@.subrange(0, i as int)).push(v@[i as int]@));
        i = i + 1;
    }
    assert(v@.subrange(0, v@.len() as int) == v@);
    out
}

/// Copies an argument field by field.
pub fn copy_arg(a: &ClapArg) -> (r: ClapArg)
    ensures
        r@ == a@,
{
    ClapArg {
        id: a.id.clone(),
        long: copy_text_option(&a.long),
        short: a.short,
        help: copy_text_option(&a.help),
        long_help: copy_text_option(&a.long_help),
        required: a.required,
        global: a.global,
        index: a.index,
        action: copy_text_option(&a.action),
        value_names: copy_texts(&a.value_names),
        num_args: copy_text_option(&a.num_args),
    }
}

proof fn lemma_insert_at(t: Seq<ArgView>, x: ArgView, j: int)
    requires
        0 <= j <= t.len(),
        j == 0 || lex_le(t[j - 1].id, x.id),
        forall|k: int| j <= k < t.len() ==> !lex_le(#[trigger] t[k].id, x.id),
    ensures
        insert_by_id(t, x) == t.subrange(0, j).push(x) + t.subrange(j, t.len() as int),
    decreases t.len(),
{
    if t.len() == 0 {
        assert(t.subrange(0, j).push(x) + t.subrange(j, t.len() as int) == seq![x]);
    } else if j == t.len() {
        assert(t.subrange(0, j) == t);
        assert(t.subrange(0, j).push(x) + t.subrange(j, t.len() as int) == t.push(x));
    } else {
        let p = t.drop_last();
        assert forall|k: int| j <= k < p.len() implies !lex_le(#[trigger] p[k].id, x.id) by {
            assert(p[k] == t[k]);
        }
        lemma_insert_at(p, x, j);
        assert(p.subrange(0, j) == t.subrange(0, j));
        assert(p.subrange(0, j).push(x) + p.subrange(j, p.len() as int) + seq![t.last()]
            == t.subrange(0, j).push(x) + t.subrange(j, t.len() as int));
    }
}

fn insert_sorted(out: &mut Vec<ClapArg>, x: ClapArg)
    ensures
        arg_views(final(out)@) == insert_by_id(arg_views(old(out)@), x@),
{
    let ghost t = arg_views(out@);
    let mut j: usize = out.len();
    while j > 0 && !text_le(out[j - 1].id.as_str(), x.id.as_str())
        invariant
            j <= out@.len(),
            t == arg_views(out@),
            forall|k: int| j <= k < t.len() ==> !lex_le(#[trigger] t[k].id, x@.id),
        decreases j,
    {
        j = j - 1;
    }
    proof {
        lemma_insert_at(t, x@, j as int);
    }
    out.insert(j, x);
    assert(arg_views(out@) == t.subrange(0, j as int).push(x@) + t.subrange(j as int, t.len() as int));
}

fn sort_args(v: &Vec<ClapArg>) -> (r: Vec<ClapArg>)
    ensures
        arg_views(r@) == sort_by_id(arg_views(v@)),
{
    let mut out: Vec<ClapArg> = Vec::new();
    let mut i: usize = 0;
    while i < v.len()
        invariant
            i <= v@.len(),
            arg_views(out@) == sort_by_id(arg_views(v@.subrange(0, i as int))),
        decreases v.len() - i,
    {
        let ghost part = arg_views(v@.subrange(0, i + 1));
        assert(part.drop_last() == arg_views(v@.subrange(0, i as int)));
        assert(part.last() == v@[i as int]@);
        insert_sorted(&mut out, copy_arg(&v[i]));
        i = i + 1;
    }
    assert(v@.subrange(0, v@.len() as int) == v@);
    out
}

fn adjust_args(m: &ClapMcpSchemaMetadata, cmd: &str, args: &Vec<ClapArg>) -> (r: Vec<ClapArg>)
    ensures
        arg_views(r@) == adjusted_args(arg_views(args@), m@, cmd@),
{
    let mut out: Vec<ClapArg> = Vec::new();
    let mut i: usize = 0;
    while i < args.len()
        invariant
            i <= args@.len(),
            arg_views(out@) == adjusted_args(arg_views(args@.subrange(0, i as int)), m@, cmd@),
        decreases args.len() - i,
    {
        let ghost part = arg_views(args@.subrange(0, i + 1));
        assert(part.drop_last() == arg_views(args@.subrange(0, i as int)));
        assert(part.last() == args@[i as int]@);
        let a = &args[i];
        if !is_builtin_arg(a.id.as_str()) && !overlay_has(&m.skip_args, cmd, a.id.as_str()) {
            let mut b = copy_arg(a);
            if overlay_has(&m.requires_args, cmd, a.id.as_str()) {
                b.required = true;
            }
            out.push(b);
        }
        i = i + 1;
    }
    assert(args@.subrange(0, args@.len() as int) == args@);
    out
}

pub open spec fn command_views(s: Seq<ClapCommand>) -> Seq<CommandView> {
    s.map_values(|c: ClapCommand| c@)
}

fn filter_command(cmd: &ClapCommand, m: &ClapMcpSchemaMetadata) -> (r: ClapCommand)
    ensures
        r@ == filtered_command(cmd@, m@),
    decreases cmd,
{
    let adjusted = adjust_args(m, cmd.name.as_str(), &cmd.args);
    let args = sort_args(&adjusted);
    let mut subs: Vec<ClapCommand> = Vec::new();
    let mut i: usize = 0;
    while i < cmd.subcommands.len()
        invariant
            i <= cmd.subcommands@.len(),
            command_views(subs@) == filtered_children(cmd@.subcommands.subrange(0, i as int), m@),
        decreases cmd.subcommands@.len() - i,
    {
        let ghost part = cmd@.subcommands.subrange(0, i + 1);
        assert(part.drop_last() == cmd@.subcommands.subrange(0, i as int));
        assert(part.last() == cmd.subcommands@[i as int]@);
        let sub = &cmd.subcommands[i];
        if !contains_text(&m.skip_commands, sub.name.as_str()) {
            let f = filter_command(sub, m);
            subs.push(f);
        }
        i = i + 1;
    }
    assert(cmd@.subcommands.subrange(0, cmd@.subcommands.len() as int) == cmd@.subcommands);
    let r = ClapCommand {
        name: cmd.name.clone(),
        about: copy_text_option(&cmd.about),
        long_about: copy_text_option(&cmd.long_about),
        version: copy_text_option(&cmd.version),
        args,
        subcommands: subs,
    };
    assert(r@.subcommands == command_views(subs@));
    r
}

/// Applies the metadata overlay to a command tree: drops skipped commands (with their
/// subtrees), drops built-in and skipped arguments, marks forced arguments required,
/// and orders each command's arguments by id.
pub fn schema_from_command_with_metadata(cmd: &ClapCommand, metadata: &ClapMcpSchemaMetadata) -> (r: ClapSchema)
    ensures
        r.root@ == filtered_command(cmd@, metadata@),
        well_formed(cmd@) ==> well_formed(r.root@),
{
    proof {
        if well_formed(cmd@) {
            lemma_filter_well_formed(cmd@, metadata@);
        }
    }
    ClapSchema { root: filter_command(cmd, metadata) }
}

/// The schema of a command tree with no overlay: built-in arguments dropped and
/// arguments ordered by id.
pub fn schema_from_command(cmd: &ClapCommand) -> (r: ClapSchema)
    ensures
        r.root@ == filtered_command(cmd@, MetadataView {
            skip_commands: Seq::empty(),
            skip_args: Seq::empty(),
            requires_args: Seq::empty(),
            skip_root: false,
        }),
{
    let metadata = ClapMcpSchemaMetadata::default();
    let r = schema_from_command_with_metadata(cmd, &metadata);
    assert(metadata@.skip_commands =~= Seq::empty());
    assert(metadata@.skip_args =~= Seq::empty());
    assert(metadata@.requires_args =~= Seq::empty());
    assert(metadata@ == MetadataView {
        skip_commands: Seq::empty(),
        skip_args: Seq::empty(),
        requires_args: Seq::empty(),
        skip_root: false,
    });
    r
}


/// An argument that the overlay keeps and leaves unchanged.
pub open spec fn settled(m: MetadataView, cmd: Seq<char>, a: ArgView) -> bool {
    arg_kept(m, cmd, a) && with_overlay(m, cmd, a) == a
}

proof fn lemma_adjusted_settled(args: Seq<ArgView>, m: MetadataView, cmd: Seq<char>)
    ensures
        forall|i: int| 0 <= i < adjusted_args(args, m, cmd).len()
            ==> settled(m, cmd, #[trigger] adjusted_args(args, m, cmd)[i]),
    decreases args.len(),
{
    if args.len() > 0 {
        lemma_adjusted_settled(args.drop_last(), m, cmd);
        let rest = adjusted_args(args.drop_last(), m, cmd);
        let a = with_overlay(m, cmd, args.last());
        assert(with_overlay(m, cmd, a) == a);
        if arg_kept(m, cmd, args.last()) {
            let r = rest.push(a);
            assert forall|i: int| 0 <= i < r.len() implies settled(m, cmd, #[trigger] r[i]) by {
                if i < rest.len() {
                    assert(r[i] == rest[i]);
                }
            }
        }
    }
}

proof fn lemma_adjusted_identity(args: Seq<ArgView>, m: MetadataView, cmd: Seq<char>)
    requires
        forall|i: int| 0 <= i < args.len() ==> settled(m, cmd, #[trigger] args[i]),
    ensures
        adjusted_args(args, m, cmd) == args,
    decreases args.len(),
{
    if args.len() > 0 {
        let p = args.drop_last();
        assert forall|i: int| 0 <= i < p.len() implies settled(m, cmd, #[trigger] p[i]) by {
            assert(p[i] == args[i]);
        }
        lemma_adjusted_identity(p, m, cmd);
        assert(settled(m, cmd, args[args.len() - 1]));
        assert(p.push(args.last()) == args);
    }
}

proof fn lemma_insert_keeps(t: Seq<ArgView>, x: ArgView, m: MetadataView, cmd: Seq<char>)
    requires
        forall|i: int| 0 <= i < t.len() ==> settled(m, cmd, #[trigger] t[i]),
        settled(m, cmd, x),
    ensures
        forall|i: int| 0 <= i < insert_by_id(t, x).len() ==> settled(m, cmd, #[trigger] insert_by_id(t, x)[i]),
    decreases t.len(),
{
    if t.len() == 0 {
        assert(insert_by_id(t, x) == seq![x]);
    } else if lex_le(t.last().id, x.id) {
        let r = t.push(x);
        assert forall|i: int| 0 <= i < r.len() implies settled(m, cmd, #[trigger] r[i]) by {
            if i < t.len() {
                assert(r[i] == t[i]);
            }
        }
    } else {
        let p = t.drop_last();
        assert forall|i: int| 0 <= i < p.len() implies settled(m, cmd, #[trigger] p[i]) by {
            assert(p[i] == t[i]);
        }
        lemma_insert_keeps(p, x, m, cmd);
        assert(settled(m, cmd, t[t.len() - 1]));
        let q = insert_by_id(p, x);
        let r = q.push(t.last());
        assert forall|i: int| 0 <= i < r.len() implies settled(m, cmd, #[trigger] r[i]) by {
            if i < q.len() {
                assert(r[i] == q[i]);
            }
        }
    }
}

proof fn lemma_sort_keeps(s: Seq<ArgView>, m: MetadataView, cmd: Seq<char>)
    requires
        forall|i: int| 0 <= i < s.len() ==> settled(m, cmd, #[trigger] s[i]),
    ensures
        forall|i: int| 0 <= i < sort_by_id(s).len() ==> settled(m, cmd, #[trigger] sort_by_id(s)[i]),
    decreases s.len(),
{
    if s.len() > 0 {
        let p = s.drop_last();
        assert forall|i: int| 0 <= i < p.len() implies settled(m, cmd, #[trigger] p[i]) by {
            assert(p[i] == s[i]);
        }
        lemma_sort_keeps(p, m, cmd);
        assert(settled(m, cmd, s[s.len() - 1]));
        lemma_insert_keeps(sort_by_id(p), s.last(), m, cmd);
    }
}

proof fn lemma_insert_sorted(t: Seq<ArgView>, x: ArgView)
    requires
        sorted_by_id(t),
    ensures
        sorted_by_id(insert_by_id(t, x)),
        insert_by_id(t, x).len() == t.len() + 1,
        insert_by_id(t, x).last() == x || (t.len() > 0 && insert_by_id(t, x).last() == t.last()),
    decreases t.len(),
{
    if t.len() == 0 {
    } else if lex_le(t.last().id, x.id) {
        let r = t.push(x);
        assert forall|i: int| 0 <= i < r.len() - 1 implies lex_le(#[trigger] r[i].id, r[i + 1].id) by {
            if i < t.len() - 1 {
                assert(r[i] == t[i] && r[i + 1] == t[i + 1]);
            }
        }
    } else {
        let p = t.drop_last();
        assert(sorted_by_id(p)) by {
            assert forall|i: int| 0 <= i < p.len() - 1 implies lex_le(#[trigger] p[i].id, p[i + 1].id) by {
                assert(p[i] == t[i] && p[i + 1] == t[i + 1]);
            }
        }
        lemma_insert_sorted(p, x);
        lemma_lex_le_total(t.last().id, x.id);
        let q = insert_by_id(p, x);
        let r = q.push(t.last());
        assert(lex_le(q.last().id, t.last().id)) by {
            if q.last() != x {
                assert(q.last() == p.last());
                assert(p.last() == t[t.len() - 2]);
            }
        }
        assert forall|i: int| 0 <= i < r.len() - 1 implies lex_le(#[trigger] r[i].id, r[i + 1].id) by {
            if i < q.len() - 1 {
                assert(r[i] == q[i] && r[i + 1] == q[i + 1]);
            } else {
                assert(r[i] == q.last());
            }
        }
    }
}

proof fn lemma_sort_sorted(s: Seq<ArgView>)
    ensures
        sorted_by_id(sort_by_id(s)),
    decreases s.len(),
{
    if s.len() > 0 {
        lemma_sort_sorted(s.drop_last());
        lemma_insert_sorted(sort_by_id(s.drop_last()), s.last());
    }
}

proof fn lemma_sort_of_sorted(s: Seq<ArgView>)
    requires
        sorted_by_id(s),
    ensures
        sort_by_id(s) == s,
    decreases s.len(),
{
    if s.len() > 0 {
        let p = s.drop_last();
        assert(sorted_by_id(p)) by {
            assert forall|i: int| 0 <= i < p.len() - 1 implies lex_le(#[trigger] p[i].id, p[i + 1].id) by {
                assert(p[i] == s[i] && p[i + 1] == s[i + 1]);
            }
        }
        lemma_sort_of_sorted(p);
        if p.len() > 0 {
            assert(lex_le(s[s.len() - 2].id, s[s.len() - 1].id));
            assert(p.last() == s[s.len() - 2]);
        }
        assert(p.push(s.last()) == s);
    }
}

/// Applying the overlay to an already filtered command changes nothing:
/// `filter(filter(s, m), m) == filter(s, m)`.
pub proof fn lemma_filter_idempotent(s: CommandView, m: MetadataView)
    ensures
        filtered_command(filtered_command(s, m), m) == filtered_command(s, m),
    decreases s,
{
    let once = filtered_command(s, m);
    let adjusted = adjusted_args(s.args, m, s.name);
    lemma_adjusted_settled(s.args, m, s.name);
    lemma_sort_keeps(adjusted, m, s.name);
    lemma_adjusted_identity(sort_by_id(adjusted), m, s.name);
    lemma_sort_sorted(adjusted);
    lemma_sort_of_sorted(sort_by_id(adjusted));
    lemma_children_idempotent(s.subcommands, m);
}

/// Filtering an already filtered list of siblings changes nothing.
pub proof fn lemma_children_idempotent(cs: Seq<CommandView>, m: MetadataView)
    ensures
        filtered_children(filtered_children(cs, m), m) == filtered_children(cs, m),
    decreases cs,
{
    if cs.len() > 0 {
        let p = cs.drop_last();
        lemma_children_idempotent(p, m);
        let rest = filtered_children(p, m);
        if !m.skip_commands.contains(cs.last().name) {
            let y = filtered_command(cs.last(), m);
            lemma_filter_idempotent(cs.last(), m);
            let r = rest.push(y);
            assert(r.drop_last() == rest);
            assert(r.last() == y);
        }
    }
}

/// Two arguments of one command may stand side by side: distinct ids, and distinct
/// declared positions when both are positional.
pub open spec fn args_compatible(a: ArgView, b: ArgView) -> bool {
    a.id != b.id && !(a.long is None && b.long is None && a.index is Some && a.index == b.index)
}

pub open spec fn args_well_formed(s: Seq<ArgView>) -> bool {
    forall|i: int, j: int| 0 <= i < j < s.len() ==> args_compatible(#[trigger] s[i], #[trigger] s[j])
}

pub open spec fn names_distinct(cs: Seq<CommandView>) -> bool {
    forall|i: int, j: int| 0 <= i < j < cs.len() ==> (#[trigger] cs[i]).name != (#[trigger] cs[j]).name
}

/// A command tree as a command-line definition has it: one argument per id, distinct
/// positions for positionals, and sibling commands with distinct names, throughout.
pub open spec fn well_formed(c: CommandView) -> bool
    decreases c,
{
    args_well_formed(c.args) && names_distinct(c.subcommands) && all_well_formed(c.subcommands)
}

pub open spec fn all_well_formed(cs: Seq<CommandView>) -> bool
    decreases cs,
{
    cs.len() == 0 || (all_well_formed(cs.drop_last()) && well_formed(cs.last()))
}

pub open spec fn same_key(a: ArgView, b: ArgView) -> bool {
    a.id == b.id && a.long == b.long && a.index == b.index
}

proof fn lemma_adjusted_from(s: Seq<ArgView>, m: MetadataView, cmd: Seq<char>)
    ensures
        forall|i: int| 0 <= i < adjusted_args(s, m, cmd).len()
            ==> exists|k: int| 0 <= k < s.len() && same_key(#[trigger] adjusted_args(s, m, cmd)[i], s[k]),
    decreases s.len(),
{
    if s.len() > 0 {
        let p = s.drop_last();
        lemma_adjusted_from(p, m, cmd);
        let rest = adjusted_args(p, m, cmd);
        let r = adjusted_args(s, m, cmd);
        assert forall|i: int| 0 <= i < r.len() implies exists|k: int| 0 <= k < s.len() && same_key(#[trigger] r[i], s[k]) by {
            if i < rest.len() {
                assert(r[i] == rest[i]);
                let k = choose|k: int| 0 <= k < p.len() && same_key(rest[i], p[k]);
                assert(p[k] == s[k]);
            } else {
                assert(same_key(r[i], s[s.len() - 1]));
            }
        }
    }
}

proof fn lemma_adjusted_well_formed(s: Seq<ArgView>, m: MetadataView, cmd: Seq<char>)
    requires
        args_well_formed(s),
    ensures
        args_well_formed(adjusted_args(s, m, cmd)),
    decreases s.len(),
{
    if s.len() > 0 {
        let p = s.drop_last();
        assert(args_well_formed(p)) by {
            assert forall|i: int, j: int| 0 <= i < j < p.len() implies args_compatible(#[trigger] p[i], #[trigger] p[j]) by {
                assert(p[i] == s[i] && p[j] == s[j]);
            }
        }
        lemma_adjusted_well_formed(p, m, cmd);
        lemma_adjusted_from(p, m, cmd);
        let rest = adjusted_args(p, m, cmd);
        if arg_kept(m, cmd, s.last()) {
            let y = with_overlay(m, cmd, s.last());
            let r = rest.push(y);
            assert forall|i: int, j: int| 0 <= i < j < r.len() implies args_compatible(#[trigger] r[i], #[trigger] r[j]) by {
                if j < rest.len() {
                    assert(r[i] == rest[i] && r[j] == rest[j]);
                } else {
                    assert(r[i] == rest[i]);
                    let k = choose|k: int| 0 <= k < p.len() && same_key(rest[i], p[k]);
                    assert(p[k] == s[k]);
                    assert(args_compatible(s[k], s[s.len() - 1]));
                }
            }
        }
    }
}

proof fn lemma_insert_members(t: Seq<ArgView>, x: ArgView)
    ensures
        forall|i: int| 0 <= i < insert_by_id(t, x).len() ==> (#[trigger] insert_by_id(t, x)[i] == x
            || exists|k: int| 0 <= k < t.len() && insert_by_id(t, x)[i] == t[k]),
    decreases t.len(),
{
    let r = insert_by_id(t, x);
    if t.len() == 0 {
        assert(r == seq![x]);
    } else if lex_le(t.last().id, x.id) {
        assert forall|i: int| 0 <= i < r.len() implies (#[trigger] r[i] == x
            || exists|k: int| 0 <= k < t.len() && r[i] == t[k]) by {
            if i < t.len() {
                assert(r[i] == t[i]);
            }
        }
    } else {
        let p = t.drop_last();
        lemma_insert_members(p, x);
        let q = insert_by_id(p, x);
        assert forall|i: int| 0 <= i < r.len() implies (#[trigger] r[i] == x
            || exists|k: int| 0 <= k < t.len() && r[i] == t[k]) by {
            if i < q.len() {
                assert(r[i] == q[i]);
                if q[i] != x {
                    let k = choose|k: int| 0 <= k < p.len() && q[i] == p[k];
                    assert(p[k] == t[k]);
                }
            } else {
                assert(r[i] == t[t.len() - 1]);
            }
        }
    }
}

proof fn lemma_sort_members(s: Seq<ArgView>)
    ensures
        forall|i: int| 0 <= i < sort_by_id(s).len() ==> exists|k: int| 0 <= k < s.len() && #[trigger] sort_by_id(s)[i] == s[k],
    decreases s.len(),
{
    if s.len() > 0 {
        let p = s.drop_last();
        lemma_sort_members(p);
        lemma_insert_members(sort_by_id(p), s.last());
        let q = sort_by_id(p);
        let r = sort_by_id(s);
        assert forall|i: int| 0 <= i < r.len() implies exists|k: int| 0 <= k < s.len() && #[trigger] r[i] == s[k] by {
            if r[i] == s.last() {
                assert(r[i] == s[s.len() - 1]);
            } else {
                let k = choose|k: int| 0 <= k < q.len() && r[i] == q[k];
                let k2 = choose|k2: int| 0 <= k2 < p.len() && #[trigger] q[k] == p[k2];
                assert(p[k2] == s[k2]);
            }
        }
    }
}

proof fn lemma_insert_well_formed(t: Seq<ArgView>, x: ArgView)
    requires
        args_well_formed(t),
        forall|k: int| 0 <= k < t.len() ==> args_compatible(#[trigger] t[k], x),
    ensures
        args_well_formed(insert_by_id(t, x)),
    decreases t.len(),
{
    let r = insert_by_id(t, x);
    if t.len() == 0 {
        assert(r == seq![x]);
    } else if lex_le(t.last().id, x.id) {
        assert forall|i: int, j: int| 0 <= i < j < r.len() implies args_compatible(#[trigger] r[i], #[trigger] r[j]) by {
            assert(r[i] == t[i]);
            if j < t.len() {
                assert(r[j] == t[j]);
            }
        }
    } else {
        let p = t.drop_last();
        assert(args_well_formed(p)) by {
            assert forall|i: int, j: int| 0 <= i < j < p.len() implies args_compatible(#[trigger] p[i], #[trigger] p[j]) by {
                assert(p[i] == t[i] && p[j] == t[j]);
            }
        }
        assert forall|k: int| 0 <= k < p.len() implies args_compatible(#[trigger] p[k], x) by {
            assert(p[k] == t[k]);
        }
        lemma_insert_well_formed(p, x);
        lemma_insert_members(p, x);
        let q = insert_by_id(p, x);
        let last = t[t.len() - 1];
        assert forall|i: int, j: int| 0 <= i < j < r.len() implies args_compatible(#[trigger] r[i], #[trigger] r[j]) by {
            assert(r[i] == q[i]);
            if j < q.len() {
                assert(r[j] == q[j]);
            } else {
                assert(r[j] == last);
                if q[i] == x {
                    assert(args_compatible(last, x));
                } else {
                    let k = choose|k: int| 0 <= k < p.len() && q[i] == p[k];
                    assert(p[k] == t[k]);
                }
            }
        }
    }
}

proof fn lemma_sort_well_formed(s: Seq<ArgView>)
    requires
        args_well_formed(s),
    ensures
        args_well_formed(sort_by_id(s)),
    decreases s.len(),
{
    if s.len() > 0 {
        let p = s.drop_last();
        assert(args_well_formed(p)) by {
            assert forall|i: int, j: int| 0 <= i < j < p.len() implies args_compatible(#[trigger] p[i], #[trigger] p[j]) by {
                assert(p[i] == s[i] && p[j] == s[j]);
            }
        }
        lemma_sort_well_formed(p);
        lemma_sort_members(p);
        let q = sort_by_id(p);
        assert forall|k: int| 0 <= k < q.len() implies args_compatible(#[trigger] q[k], s.last()) by {
            let k2 = choose|k2: int| 0 <= k2 < p.len() && q[k] == p[k2];
            assert(p[k2] == s[k2]);
        }
        lemma_insert_well_formed(q, s.last());
    }
}

proof fn lemma_children_names(cs: Seq<CommandView>, m: MetadataView)
    ensures
        forall|i: int| 0 <= i < filtered_children(cs, m).len()
            ==> exists|k: int| 0 <= k < cs.len() && (#[trigger] filtered_children(cs, m)[i]).name == cs[k].name,
    decreases cs.len(),
{
    if cs.len() > 0 {
        let p = cs.drop_last();
        lemma_children_names(p, m);
        let rest = filtered_children(p, m);
        let r = filtered_children(cs, m);
        assert forall|i: int| 0 <= i < r.len() implies exists|k: int| 0 <= k < cs.len() && (#[trigger] r[i]).name == cs[k].name by {
            if i < rest.len() {
                assert(r[i] == rest[i]);
                let k = choose|k: int| 0 <= k < p.len() && rest[i].name == p[k].name;
                assert(p[k] == cs[k]);
            } else {
                let y = filtered_command(cs.last(), m);
                assert(r == rest.push(y));
                assert(r[i] == y);
                assert(y.name == cs.last().name);
                assert(r[i].name == cs[cs.len() - 1].name);
            }
        }
    }
}

/// The overlay keeps a well-formed command tree well formed.
pub proof fn lemma_filter_well_formed(c: CommandView, m: MetadataView)
    requires
        well_formed(c),
    ensures
        well_formed(filtered_command(c, m)),
    decreases c,
{
    lemma_adjusted_well_formed(c.args, m, c.name);
    lemma_sort_well_formed(adjusted_args(c.args, m, c.name));
    lemma_children_well_formed(c.subcommands, m);
}

/// The overlay keeps a well-formed list of siblings well formed.
pub proof fn lemma_children_well_formed(cs: Seq<CommandView>, m: MetadataView)
    requires
        names_distinct(cs),
        all_well_formed(cs),
    ensures
        names_distinct(filtered_children(cs, m)),
        all_well_formed(filtered_children(cs, m)),
    decreases cs,
{
    if cs.len() > 0 {
        let p = cs.drop_last();
        assert(names_distinct(p)) by {
            assert forall|i: int, j: int| 0 <= i < j < p.len() implies (#[trigger] p[i]).name != (#[trigger] p[j]).name by {
                assert(p[i] == cs[i] && p[j] == cs[j]);
            }
        }
        lemma_children_well_formed(p, m);
        let rest = filtered_children(p, m);
        if !m.skip_commands.contains(cs.last().name) {
            lemma_filter_well_formed(cs.last(), m);
            lemma_children_names(p, m);
            let y = filtered_command(cs.last(), m);
            let r = rest.push(y);
            assert(r.drop_last() == rest);
            assert forall|i: int, j: int| 0 <= i < j < r.len() implies (#[trigger] r[i]).name != (#[trigger] r[j]).name by {
                assert(r[i] == rest[i]);
                if j < rest.len() {
                    assert(r[j] == rest[j]);
                } else {
                    let k = choose|k: int| 0 <= k < p.len() && rest[i].name == p[k].name;
                    assert(p[k] == cs[k]);
                }
            }
        }
    }
}

} // verus!
