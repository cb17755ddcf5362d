//! Tool descriptors built from a filtered schema: one per exposed command, in
//! pre-order, with an input schema and a safety annotation.

use vstd::prelude::*;
use crate::config::ClapMcpConfig;
use crate::filter::{copy_text_option, ClapMcpSchemaMetadata};
use crate::json::copy_json_option;
use crate::schema::{
    arg_views, builtin_id, is_builtin_arg, opt_view, preorder, preorder_all, ref_views, ArgView,
    ClapCommand, ClapSchema, CommandView,
};
use crate::text::views;

verus! {

/// One input property of a tool; its type is always string.
#[derive(Debug, Clone)]
pub struct ToolProperty {
    pub name: String,
    pub description: Option<String>,
}

/// The safety flags of the configuration, repeated on every tool.
#[derive(Debug, Clone, Copy, PartialEq, Eq, Structural)]
pub struct ToolSafety {
    pub reinvocation_safe: bool,
    pub parallel_safe: bool,
    pub share_runtime: bool,
}

/// What a client sees of one tool.
#[derive(Debug, Clone)]
pub struct ToolDescriptor {
    pub name: String,
    pub title: Option<String>,
    pub description: Option<String>,
    /// Ids of the required input properties, in schema order.
    pub required: Vec<String>,
    /// One property per non-built-in argument, in schema order.
    pub properties: Vec<ToolProperty>,
    pub meta: ToolSafety,
    pub output_schema: Option<serde_json::Value>,
}

pub open spec fn or_else(a: Option<Seq<char>>, b: Option<Seq<char>>) -> Option<Seq<char>> {
    match a {
        Some(x) => Some(x),
        None => b,
    }
}

pub open spec fn property_views(ps: Seq<ToolProperty>) -> Seq<(Seq<char>, Option<Seq<char>>)> {
    ps.map_values(|p: ToolProperty| (p.name@, opt_view(p.description)))
}

/// The input properties of a command: each non-built-in argument's id, described by
/// its long help, else its help.
pub open spec fn command_properties(cargs: Seq<ArgView>) -> Seq<(Seq<char>, Option<Seq<char>>)>
    decreases cargs.len(),
{
    if cargs.len() == 0 {
        Seq::empty()
    } else {
        let rest = command_properties(cargs.drop_last());
        let a = cargs.last();
        if builtin_id(a.id) {
            rest
        } else {
            rest.push((a.id, or_else(a.long_help, a.help)))
        }
    }
}

/// Ids of the required non-built-in arguments of a command.
pub open spec fn required_ids(cargs: Seq<ArgView>) -> Seq<Seq<char>>
    decreases cargs.len(),
{
    if cargs.len() == 0 {
        Seq::empty()
    } else {
        let rest = required_ids(cargs.drop_last());
        let a = cargs.last();
        if !builtin_id(a.id) && a.required {
            rest.push(a.id)
        } else {
            rest
        }
    }
}

pub open spec fn safety_of(c: ClapMcpConfig) -> ToolSafety {
    ToolSafety {
        reinvocation_safe: c.reinvocation_safe,
        parallel_safe: c.parallel_safe,
        share_runtime: c.share_runtime,
    }
}

/// `t` describes command `c` under `config`, with output schema `output`.
pub open spec fn describes(t: ToolDescriptor, c: CommandView, config: ClapMcpConfig, output: Option<serde_json::Value>) -> bool {
    &&& t.name@ == c.name
    &&& opt_view(t.title) == c.about
    &&& opt_view(t.description) == or_else(c.long_about, c.about)
    &&& property_views(t.properties@) == command_properties(c.args)
    &&& views(t.required@) == required_ids(c.args)
    &&& t.meta == safety_of(config)
    &&& t.output_schema == output
}

/// The commands that become tools: all in pre-order, or, when the metadata asks to
/// skip the root and the root has subcommands, all but the root.
pub open spec fn listed_commands(root: CommandView, skip_root: bool) -> Seq<CommandView> {
    if skip_root && root.subcommands.len() > 0 {
        preorder_all(root.subcommands)
    } else {
        preorder(root)
    }
}

/// Builds the descriptor of one command.
pub fn command_to_tool_with_config(cmd: &ClapCommand, config: &ClapMcpConfig, output_schema: &Option<serde_json::Value>) -> (r: ToolDescriptor)
    ensures
        describes(r, cmd@, *config, *output_schema),
{
    let mut properties: Vec<ToolProperty> = Vec::new();
    let mut required: Vec<String> = Vec::new();
    let mut i: usize = 0;
    while i < cmd.args.len()
        invariant
            i <= cmd.args@.len(),
            property_views(properties@) == command_properties(arg_views(cmd.args@.subrange(0, i as int))),
            views(required@) == required_ids(arg_views(cmd.args@.subrange(0, i as int))),
        decreases cmd.args.len() - i,
    {
        let ghost part = arg_views(cmd.args@.subrange(0, i + 1));
        assert(part.drop_last() == arg_views(cmd.args@.subrange(0, i as int)));
        assert(part.last() == cmd.args@[i as int]@);
        let a = &cmd.args[i];
        if !is_builtin_arg(a.id.as_str()) {
            let description = match &a.long_help {
                Some(h) => Some(h.clone()),
                None => copy_text_option(&a.help),
            };
            properties.push(ToolProperty { name: a.id.clone(), description });
            if a.required {
                required.push(a.id.clone());
            }
        }
        i = i + 1;
    }
    assert(cmd.args@.subrange(0, cmd.args@.len() as int) == cmd.args@);
    assert(arg_views(cmd.args@) == cmd@.args);
    let description = match &cmd.long_about {
        Some(h) => Some(h.clone()),
        None => copy_text_option(&cmd.about),
    };
    ToolDescriptor {
        name: cmd.name.clone(),
        title: copy_text_option(&cmd.about),
        description,
        required,
        properties,
        meta: ToolSafety {
            reinvocation_safe: config.reinvocation_safe,
            parallel_safe: config.parallel_safe,
            share_runtime: config.share_runtime,
        },
        output_schema: copy_json_option(output_schema),
    }
}

/// Builds one tool per listed command, in pre-order, each carrying the configuration's
/// safety flags and the metadata's output schema.
pub fn tools_from_schema_with_config_and_metadata(schema: &ClapSchema, config: &ClapMcpConfig, metadata: &ClapMcpSchemaMetadata) -> (r: Vec<ToolDescriptor>)
    ensures
        r@.len() == listed_commands(schema.root@, metadata.skip_root_command_when_subcommands).len(),
        forall|i: int| 0 <= i < r@.len() ==> describes(
            #[trigger] r@[i],
            listed_commands(schema.root@, metadata.skip_root_command_when_subcommands)[i],
            *config,
            metadata.output_schema,
        ),
{
    let ghost listed = listed_commands(schema.root@, metadata.skip_root_command_when_subcommands);
    let all = schema.root.all_commands();
    let skip_root = metadata.skip_root_command_when_subcommands && schema.root.subcommands.len() > 0;
    let start: usize = if skip_root { 1 } else { 0 };
    proof {
        let s = ref_views(all@);
        assert(s[0] == schema.root@);
        if skip_root {
            assert(s.subrange(1, s.len() as int) == preorder_all(schema.root@.subcommands));
        }
        assert forall|k: int| start <= k < s.len() implies s[k] == listed[k - start] by {
            if skip_root {
                assert(s.subrange(1, s.len() as int)[k - 1] == s[k]);
            }
        }
    }
    let mut tools: Vec<ToolDescriptor> = Vec::new();
    let mut i: usize = start;
    while i < all.len()
        invariant
            start <= i <= all@.len(),
            listed.len() == all@.len() - start,
            forall|k: int| start <= k < all@.len() ==> all@[k]@ == listed[k - start],
            tools@.len() == i - start,
            forall|k: int| 0 <= k < tools@.len() ==> describes(#[trigger] tools@[k], listed[k], *config, metadata.output_schema),
        decreases all.len() - i,
    {
        assert(all@[i as int]@ == listed[i - start]);
        let t = command_to_tool_with_config(all[i], config, &metadata.output_schema);
        tools.push(t);
        i = i + 1;
    }
    tools
}

/// Builds the tools of a schema under a configuration, with no metadata.
pub fn tools_from_schema_with_config(schema: &ClapSchema, config: &ClapMcpConfig) -> (r: Vec<ToolDescriptor>)
    ensures
        r@.len() == preorder(schema.root@).len(),
        forall|i: int| 0 <= i < r@.len() ==> describes(#[trigger] r@[i], preorder(schema.root@)[i], *config, None),
{
    let metadata = ClapMcpSchemaMetadata::default();
    tools_from_schema_with_config_and_metadata(schema, config, &metadata)
}

/// Builds the tools of a schema under the default configuration.
pub fn tools_from_schema(schema: &ClapSchema) -> (r: Vec<ToolDescriptor>)
    ensures
        r@.len() == preorder(schema.root@).len(),
        forall|i: int| 0 <= i < r@.len() ==> describes(
            #[trigger] r@[i],
            preorder(schema.root@)[i],
            ClapMcpConfig {
                reinvocation_safe: false,
                parallel_safe: false,
                share_runtime: false,
                catch_in_process_panics: false,
                allow_mcp_without_subcommand: true,
            },
            None,
        ),
{
    let config = ClapMcpConfig::default();
    tools_from_schema_with_config(schema, &config)
}

} // verus!
