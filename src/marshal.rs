//! Call arguments: looking them up, checking required ones, and turning them back
//! into command-line tokens.

use vstd::prelude::*;
use vstd::string::*;
use crate::filter::copy_arg;
use crate::schema::{
    arg_views, builtin_id, is_builtin_arg, opt_view, preorder, ref_views, ArgView, ClapArg,
    ClapCommand, ClapSchema, CommandView,
};
use crate::text::{join, join_text, str_eq, views};

verus! {

/// One argument value of a call, as the JSON object of the call holds it.
#[derive(Debug, Clone, PartialEq, Eq)]
pub enum ArgValue {
    Null,
    Text(String),
    /// A number, in its canonical JSON text.
    Number(String),
    Bool(bool),
    /// An array or object, in its JSON text.
    Other(String),
}

/// The token text of a value: strings as they are, numbers and booleans in canonical
/// text, arrays and objects in JSON text; nothing for null.
pub open spec fn value_text(v: ArgValue) -> Option<Seq<char>> {
    match v {
        ArgValue::Null => None,
        ArgValue::Text(s) => Some(s@),
        ArgValue::Number(t) => Some(t@),
        ArgValue::Bool(b) => Some(if b { "true"@ } else { "false"@ }),
        ArgValue::Other(t) => Some(t@),
    }
}

/// The token text of a value; `None` for null.
pub fn value_to_string(v: &ArgValue) -> (r: Option<String>)
    ensures
        opt_view(r) == value_text(*v),
{
    match v {
        ArgValue::Null => None,
        ArgValue::Text(s) => Some(s.clone()),
        ArgValue::Number(t) => Some(t.clone()),
        ArgValue::Bool(b) => {
            if *b {
                Some(String::from_str("true"))
            } else {
                Some(String::from_str("false"))
            }
        },
        ArgValue::Other(t) => Some(t.clone()),
    }
}

/// The position of the first entry with key `id`, at or after `from`.
pub open spec fn first_key(args: Seq<(String, ArgValue)>, id: Seq<char>, from: int) -> Option<int>
    decreases args.len() - from,
{
    if from < 0 || from >= args.len() {
        None
    } else if args[from].0@ == id {
        Some(from)
    } else {
        first_key(args, id, from + 1)
    }
}

/// The value that a call gives to argument `id`: that of its first entry.
pub open spec fn lookup(args: Seq<(String, ArgValue)>, id: Seq<char>) -> Option<ArgValue> {
    match first_key(args, id, 0) {
        Some(i) => Some(args[i].1),
        None => None,
    }
}

/// The token text that a call gives to argument `id`, if any.
pub open spec fn given_text(args: Seq<(String, ArgValue)>, id: Seq<char>) -> Option<Seq<char>> {
    match lookup(args, id) {
        Some(v) => value_text(v),
        None => None,
    }
}

proof fn lemma_first_key_bounds(args: Seq<(String, ArgValue)>, id: Seq<char>, from: int)
    requires
        0 <= from,
    ensures
        first_key(args, id, from) matches Some(i) ==> from <= i < args.len() && args[i].0@ == id,
    decreases args.len() - from,
{
    if from < args.len() && args[from].0@ != id {
        lemma_first_key_bounds(args, id, from + 1);
    }
}

/// The value that a call gives to argument `id`.
pub fn lookup_arg<'a>(args: &'a Vec<(String, ArgValue)>, id: &str) -> (r: Option<&'a ArgValue>)
    ensures
        match r {
            Some(v) => lookup(args@, id@) == Some(*v),
            None => lookup(args@, id@) is None,
        },
{
    let mut i: usize = 0;
    while i < args.len()
        invariant
            i <= args@.len(),
            first_key(args@, id@, 0) == first_key(args@, id@, i as int),
        decreases args.len() - i,
    {
        if str_eq(args[i].0.as_str(), id) {
            return Some(&args[i].1);
        }
        i = i + 1;
    }
    None
}

/// The token text that a call gives to argument `id`, if any.
pub fn given_value_text(args: &Vec<(String, ArgValue)>, id: &str) -> (r: Option<String>)
    ensures
        opt_view(r) == given_text(args@, id@),
{
    match lookup_arg(args, id) {
        Some(v) => value_to_string(v),
        None => None,
    }
}

/// The first command named `name` in a pre-order list.
pub open spec fn first_named(s: Seq<CommandView>, name: Seq<char>) -> Option<CommandView>
    decreases s.len(),
{
    if s.len() == 0 {
        None
    } else if s[0].name == name {
        Some(s[0])
    } else {
        first_named(s.drop_first(), name)
    }
}

/// The command of a schema that a tool name stands for: the first in pre-order.
pub open spec fn named_command(schema: CommandView, name: Seq<char>) -> Option<CommandView> {
    first_named(preorder(schema), name)
}

/// Finds the command that a tool name stands for.
pub fn find_command<'a>(schema: &'a ClapSchema, name: &str) -> (r: Option<&'a ClapCommand>)
    ensures
        match r {
            Some(c) => named_command(schema.root@, name@) == Some(c@),
            None => named_command(schema.root@, name@) is None,
        },
{
    let all = schema.root.all_commands();
    let ghost s = ref_views(all@);
    let mut i: usize = 0;
    assert(s.skip(0) == s);
    while i < all.len()
        invariant
            i <= all@.len(),
            s == ref_views(all@),
            s == preorder(schema.root@),
            first_named(s, name@) == first_named(s.skip(i as int), name@),
        decreases all.len() - i,
    {
        assert(s.skip(i as int)[0] == all@[i as int]@);
        if str_eq(all[i].name.as_str(), name) {
            return Some(all[i]);
        }
        assert(s.skip(i as int).drop_first() == s.skip(i + 1));
        i = i + 1;
    }
    None
}

/// Ids of required, non-built-in arguments to which a call gives no non-empty value,
/// in schema order.
pub open spec fn missing_ids(cargs: Seq<ArgView>, args: Seq<(String, ArgValue)>) -> Seq<Seq<char>>
    decreases cargs.len(),
{
    if cargs.len() == 0 {
        Seq::empty()
    } else {
        let rest = missing_ids(cargs.drop_last(), args);
        let a = cargs.last();
        if a.required && !builtin_id(a.id) && !has_value(args, a.id) {
            rest.push(a.id)
        } else {
            rest
        }
    }
}

/// The call gives `id` a present, non-null, non-empty value.
pub open spec fn has_value(args: Seq<(String, ArgValue)>, id: Seq<char>) -> bool {
    given_text(args, id) matches Some(t) && t.len() > 0
}

pub open spec fn missing_message(missing: Seq<Seq<char>>) -> Seq<char> {
    "Missing required argument(s): "@ + join(missing, ", "@)
        + ". The MCP tool schema marks these as required."@
}

/// The outcome of checking a call's required arguments against a schema.
pub open spec fn required_check(schema: CommandView, name: Seq<char>, args: Seq<(String, ArgValue)>) -> Result<(), Seq<char>> {
    match named_command(schema, name) {
        None => Ok(()),
        Some(c) => if missing_ids(c.args, args).len() == 0 {
            Ok(())
        } else {
            Err(missing_message(missing_ids(c.args, args)))
        },
    }
}

/// Checks that a call gives every required argument of the named command a present,
/// non-null, non-empty value. The error names all missing ids at once. A name that
/// no command has passes.
pub fn validate_required_args(schema: &ClapSchema, command_name: &str, arguments: &Vec<(String, ArgValue)>) -> (r: Result<(), String>)
    ensures
        match r {
            Ok(()) => required_check(schema.root@, command_name@, arguments@) == Ok::<(), Seq<char>>(()),
            Err(m) => required_check(schema.root@, command_name@, arguments@) == Err::<(), Seq<char>>(m@),
        },
{
    let cmd = match find_command(schema, command_name) {
        None => return Ok(()),
        Some(c) => c,
    };
    let mut missing: Vec<String> = Vec::new();
    let mut i: usize = 0;
    while i < cmd.args.len()
        invariant
            i <= cmd.args@.len(),
            views(missing@) == missing_ids(arg_views(cmd.args@.subrange(0, i as int)), arguments@),
        decreases cmd.args.len() - i,
    {
        let ghost part = arg_views(cmd.args@.subrange(0, i + 1));
        assert(part.drop_last() == arg_views(cmd.args@.subrange(0, i as int)));
        assert(part.last() == cmd.args@[i as int]@);
        let a = &cmd.args[i];
        if a.required && !is_builtin_arg(a.id.as_str()) {
            let present = match given_value_text(arguments, a.id.as_str()) {
                Some(t) => t.unicode_len() > 0,
                None => false,
            };
            if !present {
                missing.push(a.id.clone());
            }
        }
        i = i + 1;
    }
    assert(cmd.args@.subrange(0, cmd.args@.len() as int) == cmd.args@);
    assert(arg_views(cmd.args@) == cmd@.args);
    if missing.len() == 0 {
        Ok(())
    } else {
        let joined = join_text(&missing, ", ");
        let msg = String::from_str("Missing required argument(s): ");
        let msg = msg.concat(joined.as_str());
        let msg = msg.concat(". The MCP tool schema marks these as required.");
        Err(msg)
    }
}

/// The declared position of a positional argument (0 when unset).
pub open spec fn pos_key(a: ArgView) -> int {
    match a.index {
        Some(i) => i as int,
        None => 0,
    }
}

/// Non-built-in arguments without a long flag, in schema order.
pub open spec fn positionals(cargs: Seq<ArgView>) -> Seq<ArgView>
    decreases cargs.len(),
{
    if cargs.len() == 0 {
        Seq::empty()
    } else {
        let rest = positionals(cargs.drop_last());
        let a = cargs.last();
        if !builtin_id(a.id) && a.long is None {
            rest.push(a)
        } else {
            rest
        }
    }
}

/// `x` placed after every element of the ordered `s` whose position is not above its own.
pub open spec fn insert_by_index(s: Seq<ArgView>, x: ArgView) -> Seq<ArgView>
    decreases s.len(),
{
    if s.len() == 0 {
        seq![x]
    } else if pos_key(s.last()) <= pos_key(x) {
        s.push(x)
    } else {
        insert_by_index(s.drop_last(), x).push(s.last())
    }
}

/// Arguments ordered by declared position; equal positions keep their order.
pub open spec fn sort_by_index(s: Seq<ArgView>) -> Seq<ArgView>
    decreases s.len(),
{
    if s.len() == 0 {
        Seq::empty()
    } else {
        insert_by_index(sort_by_index(s.drop_last()), s.last())
    }
}

/// The values given to positionals, bare, in the given order; absent and null skipped.
pub open spec fn positional_tokens(ps: Seq<ArgView>, args: Seq<(String, ArgValue)>) -> Seq<Seq<char>>
    decreases ps.len(),
{
    if ps.len() == 0 {
        Seq::empty()
    } else {
        let rest = positional_tokens(ps.drop_last(), args);
        match given_text(args, ps.last().id) {
            Some(t) => rest.push(t),
            None => rest,
        }
    }
}

/// `--<long>` and the value of each non-built-in flagged argument, in schema order;
/// absent and null skipped.
pub open spec fn flagged_tokens(cargs: Seq<ArgView>, args: Seq<(String, ArgValue)>) -> Seq<Seq<char>>
    decreases cargs.len(),
{
    if cargs.len() == 0 {
        Seq::empty()
    } else {
        let rest = flagged_tokens(cargs.drop_last(), args);
        let a = cargs.last();
        if builtin_id(a.id) {
            rest
        } else {
            match (a.long, given_text(args, a.id)) {
                (Some(l), Some(t)) => rest.push("--"@ + l).push(t),
                _ => rest,
            }
        }
    }
}

/// The tokens for a call of the command that `name` stands for: positionals first,
/// then flagged options; nothing when no command has that name.
pub open spec fn tool_argv(schema: CommandView, name: Seq<char>, args: Seq<(String, ArgValue)>) -> Seq<Seq<char>> {
    match named_command(schema, name) {
        None => Seq::empty(),
        Some(c) => positional_tokens(sort_by_index(positionals(c.args)), args) + flagged_tokens(c.args, args),
    }
}

proof fn lemma_insert_index_at(t: Seq<ArgView>, x: ArgView, j: int)
    requires
        0 <= j <= t.len(),
        j == 0 || pos_key(t[j - 1]) <= pos_key(x),
        forall|k: int| j <= k < t.len() ==> pos_key(x) < pos_key(#[trigger] t[k]),
    ensures
        insert_by_index(t, x) == t.subrange(0, j).push(x) + t.subrange(j, t.len() as int),
    decreases t.len(),
{
    if t.len() == 0 {
        assert(t.subrange(0, j).push(x) + t.subrange(j, t.len() as int) == seq![x]);
    } else if j == t.len() {
        assert(t.subrange(0, j) == t);
        assert(t.subrange(0, j).push(x) + t.subrange(j, t.len() as int) == t.push(x));
    } else {
        let p = t.drop_last();
        assert forall|k: int| j <= k < p.len() implies pos_key(x) < pos_key(#[trigger] p[k]) by {
            assert(p[k] == t[k]);
        }
        lemma_insert_index_at(p, x, j);
        assert(p.subrange(0, j) == t.subrange(0, j));
        assert(p.subrange(0, j).push(x) + p.subrange(j, p.len() as int) + seq![t.last()]
            == t.subrange(0, j).push(x) + t.subrange(j, t.len() as int));
    }
}

fn index_key(a: &ClapArg) -> (r: usize)
    ensures
        r as int == pos_key(a@),
{
    match a.index {
        Some(i) => i,
        None => 0,
    }
}

fn insert_by_position(out: &mut Vec<ClapArg>, x: ClapArg)
    ensures
        arg_views(final(out)@) == insert_by_index(arg_views(old(out)@), x@),
{
    let ghost t = arg_views(out@);
    let key = index_key(&x);
    let mut j: usize = out.len();
    while j > 0 && index_key(&out[j - 1]) > key
        invariant
            j <= out@.len(),
            t == arg_views(out@),
            key as int == pos_key(x@),
            forall|k: int| j <= k < t.len() ==> pos_key(x@) < pos_key(#[trigger] t[k]),
        decreases j,
    {
        j = j - 1;
    }
    proof {
        lemma_insert_index_at(t, x@, j as int);
    }
    out.insert(j, x);
    assert(arg_views(out@) == t.subrange(0, j as int).push(x@) + t.subrange(j as int, t.len() as int));
}

fn sorted_positionals(cargs: &Vec<ClapArg>) -> (r: Vec<ClapArg>)
    ensures
        arg_views(r@) == sort_by_index(positionals(arg_views(cargs@))),
{
    let mut ps: Vec<ClapArg> = Vec::new();
    let mut i: usize = 0;
    while i < cargs.len()
        invariant
            i <= cargs@.len(),
            arg_views(ps@) == positionals(arg_views(cargs@.subrange(0, i as int))),
        decreases cargs.len() - i,
    {
        let ghost part = arg_views(cargs@.subrange(0, i + 1));
        assert(part.drop_last() == arg_views(cargs@.subrange(0, i as int)));
        assert(part.last() == cargs@[i as int]@);
        let a = &cargs[i];
        if !is_builtin_arg(a.id.as_str()) && a.long.is_none() {
            ps.push(copy_arg(a));
        }
        i = i + 1;
    }
    assert(cargs@.subrange(0, cargs@.len() as int) == cargs@);
    let mut out: Vec<ClapArg> = Vec::new();
    let mut k: usize = 0;
    while k < ps.len()
        invariant
            k <= ps@.len(),
            arg_views(out@) == sort_by_index(arg_views(ps@.subrange(0, k as int))),
        decreases ps.len() - k,
    {
        let ghost part = arg_views(ps@.subrange(0, k + 1));
        assert(part.drop_last() == arg_views(ps@.subrange(0, k as int)));
        assert(part.last() == ps@[k as int]@);
        insert_by_position(&mut out, copy_arg(&ps[k]));
        k = k + 1;
    }
    assert(ps@.subrange(0, ps@.len() as int) == ps@);
    out
}

/// Marshals a call's arguments into command-line tokens for the named command:
/// positionals bare in declared-position order, then `--<long> <value>` for flagged
/// options in schema order; absent and null values are skipped, as are built-in
/// arguments. A name that no command has gives no tokens.
pub fn build_tool_argv(schema: &ClapSchema, command_name: &str, arguments: &Vec<(String, ArgValue)>) -> (r: Vec<String>)
    ensures
        views(r@) == tool_argv(schema.root@, command_name@, arguments@),
{
    let cmd = match find_command(schema, command_name) {
        None => {
            let out: Vec<String> = Vec::new();
            assert(views(out@) =~= Seq::empty());
            return out;
        },
        Some(c) => c,
    };
    assert(arg_views(cmd.args@) == cmd@.args);
    let ps = sorted_positionals(&cmd.args);
    let mut out: Vec<String> = Vec::new();
    let mut i: usize = 0;
    while i < ps.len()
        invariant
            i <= ps@.len(),
            views(out@) == positional_tokens(arg_views(ps@.subrange(0, i as int)), arguments@),
        decreases ps.len() - i,
    {
        let ghost part = arg_views(ps@.subrange(0, i + 1));
        assert(part.drop_last() == arg_views(ps@.subrange(0, i as int)));
        assert(part.last() == ps@[i as int]@);
        match given_value_text(arguments, ps[i].id.as_str()) {
            Some(t) => {
                out.push(t);
            },
            None => {},
        }
        i = i + 1;
    }
    assert(ps@.subrange(0, ps@.len() as int) == ps@);
    let ghost head = views(out@);
    let mut flagged: Vec<String> = Vec::new();
    let mut j: usize = 0;
    while j < cmd.args.len()
        invariant
            j <= cmd.args@.len(),
            views(flagged@) == flagged_tokens(arg_views(cmd.args@.subrange(0, j as int)), arguments@),
        decreases cmd.args.len() - j,
    {
        let ghost part = arg_views(cmd.args@.subrange(0, j + 1));
        assert(part.drop_last() == arg_views(cmd.args@.subrange(0, j as int)));
        assert(part.last() == cmd.args@[j as int]@);
        let a = &cmd.args[j];
        if !is_builtin_arg(a.id.as_str()) {
            match &a.long {
                Some(l) => {
                    match given_value_text(arguments, a.id.as_str()) {
                        Some(t) => {
                            let dashes = String::from_str("--");
                            flagged.push(dashes.concat(l.as_str()));
                            flagged.push(t);
                        },
                        None => {},
                    }
                },
                None => {},
            }
        }
        j = j + 1;
    }
    assert(cmd.args@.subrange(0, cmd.args@.len() as int) == cmd.args@);
    let ghost tail = views(flagged@);
    let mut k: usize = 0;
    while k < flagged.len()
        invariant
            k <= flagged@.len(),
            tail == views(flagged@),
            views(out@) == head + tail.subrange(0, k as int),
        decreases flagged.len() - k,
    {
        let ghost prev = views(out@);
        out.push(flagged[k].clone());
        assert(views(out@) == prev.push(tail[k as int]));
        assert(tail.subrange(0, k + 1) == tail.subrange(0, k as int).push(tail[k as int]));
        assert(head + tail.subrange(0, k + 1) == (head + tail.subrange(0, k as int)).push(tail[k as int]));
        k = k + 1;
    }
    assert(tail.subrange(0, tail.len() as int) == tail);
    out
}

/// The full argument vector for re-parsing a call in-process: a program-name token,
/// the command name unless it is the root, then the marshaled tokens.
pub open spec fn parse_argv(schema: CommandView, name: Seq<char>, args: Seq<(String, ArgValue)>) -> Seq<Seq<char>> {
    seq!["cli"@] + (if name == schema.name { Seq::empty() } else { seq![name] }) + tool_argv(schema, name, args)
}

/// Builds the argument vector for re-parsing a call in-process.
pub fn build_argv_for_clap(schema: &ClapSchema, command_name: &str, arguments: &Vec<(String, ArgValue)>) -> (r: Vec<String>)
    ensures
        views(r@) == parse_argv(schema.root@, command_name@, arguments@),
{
    let tokens = build_tool_argv(schema, command_name, arguments);
    let mut argv: Vec<String> = Vec::new();
    argv.push(String::from_str("cli"));
    if !str_eq(command_name, schema.root.name.as_str()) {
        argv.push(command_name.to_owned());
    }
    let ghost head = views(argv@);
    assert(head == seq!["cli"@] + (if command_name@ == schema.root@.name { Seq::<Seq<char>>::empty() } else { seq![command_name@] }));
    let mut k: usize = 0;
    while k < tokens.len()
        invariant
            k <= tokens@.len(),
            views(argv@) == head + views(tokens@).subrange(0, k as int),
        decreases tokens.len() - k,
    {
        let ghost prev = views(argv@);
        let ghost tv = views(tokens@);
        argv.push(tokens[k].clone());
        assert(views(argv@) == prev.push(tv[k as int]));
        assert(tv.subrange(0, k + 1) == tv.subrange(0, k as int).push(tv[k as int]));
        assert(head + tv.subrange(0, k + 1) == (head + tv.subrange(0, k as int)).push(tv[k as int]));
        k = k + 1;
    }
    assert(views(tokens@).subrange(0, tokens@.len() as int) == views(tokens@));
    argv
}

/// `t` occurs in `s` as a contiguous run.
pub open spec fn has_segment(s: Seq<char>, t: Seq<char>) -> bool {
    exists|i: int| 0 <= i && i + t.len() <= s.len() && #[trigger] s.subrange(i, i + t.len()) == t
}

proof fn lemma_segment_in_concat(pre: Seq<char>, s: Seq<char>, post: Seq<char>, t: Seq<char>)
    requires
        has_segment(s, t),
    ensures
        has_segment(pre + s + post, t),
{
    let i = choose|i: int| 0 <= i && i + t.len() <= s.len() && #[trigger] s.subrange(i, i + t.len()) == t;
    let whole = pre + s + post;
    let p = pre.len() + i;
    assert(whole.subrange(p, p + t.len()) =~= s.subrange(i, i + t.len()));
}

proof fn lemma_join_has_items(items: Seq<Seq<char>>, sep: Seq<char>, j: int)
    requires
        0 <= j < items.len(),
    ensures
        has_segment(join(items, sep), items[j]),
    decreases items.len(),
{
    if items.len() == 1 {
        let i: int = 0;
        assert(join(items, sep).subrange(i, i + items[j].len()) =~= items[j]);
    } else {
        let head = join(items.drop_last(), sep);
        if j == items.len() - 1 {
            let whole = head + sep + items.last();
            let i = (head.len() + sep.len()) as int;
            assert(whole.subrange(i, i + items[j].len()) =~= items[j]);
        } else {
            lemma_join_has_items(items.drop_last(), sep, j);
            assert(items.drop_last()[j] == items[j]);
            lemma_segment_in_concat(Seq::empty(), head, sep + items.last(), items[j]);
            assert(Seq::<char>::empty() + head + (sep + items.last()) =~= head + sep + items.last());
        }
    }
}

proof fn lemma_missing_complete(cargs: Seq<ArgView>, args: Seq<(String, ArgValue)>, i: int)
    requires
        0 <= i < cargs.len(),
        cargs[i].required && !builtin_id(cargs[i].id) && !has_value(args, cargs[i].id),
    ensures
        missing_ids(cargs, args).contains(cargs[i].id),
    decreases cargs.len(),
{
    if i == cargs.len() - 1 {
        let r = missing_ids(cargs, args);
        assert(r[r.len() - 1] == cargs[i].id);
    } else {
        lemma_missing_complete(cargs.drop_last(), args, i);
        let rest = missing_ids(cargs.drop_last(), args);
        let k = choose|k: int| 0 <= k < rest.len() && rest[k] == cargs[i].id;
        let r = missing_ids(cargs, args);
        assert(r[k] == rest[k]);
    }
}

/// A call that leaves required arguments without a value is refused with one message
/// that names every one of them, not only the first.
pub proof fn lemma_missing_arguments_all_named(schema: CommandView, name: Seq<char>, args: Seq<(String, ArgValue)>)
    ensures
        named_command(schema, name) matches Some(c) ==> forall|i: int|
            0 <= i < c.args.len() && c.args[i].required && !builtin_id(c.args[i].id)
                && !has_value(args, #[trigger] c.args[i].id)
            ==> (required_check(schema, name, args) matches Err(m)
                && has_segment(m, c.args[i].id)),
{
    if let Some(c) = named_command(schema, name) {
        assert forall|i: int|
            0 <= i < c.args.len() && c.args[i].required && !builtin_id(c.args[i].id)
                && !has_value(args, #[trigger] c.args[i].id)
            implies (required_check(schema, name, args) matches Err(m)
                && has_segment(m, c.args[i].id)) by {
            let missing = missing_ids(c.args, args);
            lemma_missing_complete(c.args, args, i);
            let k = choose|k: int| 0 <= k < missing.len() && missing[k] == c.args[i].id;
            lemma_join_has_items(missing, ", "@, k);
            lemma_segment_in_concat(
                "Missing required argument(s): "@,
                join(missing, ", "@),
                ". The MCP tool schema marks these as required."@,
                c.args[i].id,
            );
        }
    }
}

} // verus!
