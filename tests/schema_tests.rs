//! Schema overlay, pre-order walk and tool catalog.

use clap_mcp::catalog::{
    tools_from_schema, tools_from_schema_with_config, tools_from_schema_with_config_and_metadata,
};
use clap_mcp::config::ClapMcpConfig;
use clap_mcp::filter::{schema_from_command, schema_from_command_with_metadata, ClapMcpSchemaMetadata};
use clap_mcp::schema::{is_builtin_arg, ClapArg, ClapCommand};

fn arg(id: &str, long: Option<&str>, index: Option<usize>, required: bool) -> ClapArg {
    ClapArg {
        id: id.to_string(),
        long: long.map(|s| s.to_string()),
        short: None,
        help: None,
        long_help: None,
        required,
        global: false,
        index,
        action: Some("Set".to_string()),
        value_names: vec![],
        num_args: None,
    }
}

fn cmd(name: &str, args: Vec<ClapArg>, subcommands: Vec<ClapCommand>) -> ClapCommand {
    ClapCommand {
        name: name.to_string(),
        about: None,
        long_about: None,
        version: None,
        args,
        subcommands,
    }
}

fn overlay(entries: &[(&str, &[&str])]) -> Vec<(String, Vec<String>)> {
    entries
        .iter()
        .map(|(c, ids)| (c.to_string(), ids.iter().map(|s| s.to_string()).collect()))
        .collect()
}

/// The tree and metadata that the skip/requires attributes declare.
fn skip_requires_cli() -> (ClapCommand, ClapMcpSchemaMetadata) {
    let root = cmd(
        "test-skip-requires",
        vec![],
        vec![
            cmd("exposed", vec![], vec![]),
            cmd("hidden", vec![], vec![]),
            cmd("read", vec![arg("path", Some("path"), None, false)], vec![]),
            cmd(
                "process",
                vec![arg("path", Some("path"), None, false), arg("input", Some("input"), None, false)],
                vec![],
            ),
            cmd("sort", vec![arg("versions", None, Some(1), false)], vec![]),
        ],
    );
    let metadata = ClapMcpSchemaMetadata {
        skip_commands: vec!["hidden".to_string()],
        requires_args: overlay(&[
            ("read", &["path"]),
            ("process", &["path", "input"]),
            ("sort", &["versions"]),
        ]),
        ..Default::default()
    };
    (root, metadata)
}

fn optional_cli() -> ClapCommand {
    cmd("test-struct-optional-cli", vec![], vec![cmd("done", vec![], vec![])])
}

#[test]
fn test_clap_mcp_skip_command() {
    let (root, metadata) = skip_requires_cli();
    let schema = schema_from_command_with_metadata(&root, &metadata);
    let commands = schema.root.all_commands();
    let names: Vec<_> = commands.iter().map(|c| c.name.as_str()).collect();
    assert!(names.contains(&"exposed"));
    assert!(names.contains(&"read"));
    assert!(!names.contains(&"hidden"));
}

#[test]
fn test_clap_mcp_skip_root_struct_field() {
    let root = cmd("test-root-skip", vec![arg("out", Some("out"), None, false)], vec![cmd("foo", vec![], vec![])]);
    let metadata = ClapMcpSchemaMetadata {
        skip_args: overlay(&[("test-root-skip", &["out"])]),
        ..Default::default()
    };
    let schema = schema_from_command_with_metadata(&root, &metadata);
    let root = &schema.root;
    assert_eq!(root.name, "test-root-skip");
    let out_arg = root.args.iter().find(|a| a.id == "out");
    assert!(
        out_arg.is_none(),
        "root-level #[clap_mcp(skip)] field 'out' should be excluded from MCP schema"
    );
}

#[test]
fn test_skip_root_command_when_subcommands() {
    let mut metadata = ClapMcpSchemaMetadata::default();
    metadata.skip_root_command_when_subcommands = true;
    let schema = schema_from_command_with_metadata(&optional_cli(), &metadata);
    let config = ClapMcpConfig::default();
    let tools = tools_from_schema_with_config_and_metadata(&schema, &config, &metadata);
    let names: Vec<_> = tools.iter().map(|t| t.name.as_str()).collect();
    assert!(
        !names.contains(&"test-struct-optional-cli"),
        "root should be excluded when skip_root_command_when_subcommands is true"
    );
    assert!(names.contains(&"done"), "subcommand 'done' should still be in tool list");
}

#[test]
fn test_skip_root_when_subcommands_derive() {
    let root = cmd("test-root-skip-when-subcommands", vec![], vec![cmd("done", vec![], vec![])]);
    let metadata = ClapMcpSchemaMetadata {
        skip_root_command_when_subcommands: true,
        ..Default::default()
    };
    assert!(
        metadata.skip_root_command_when_subcommands,
        "derive with #[clap_mcp(skip_root_when_subcommands)] should set the flag"
    );
    let schema = schema_from_command_with_metadata(&root, &metadata);
    let config = ClapMcpConfig::default();
    let tools = tools_from_schema_with_config_and_metadata(&schema, &config, &metadata);
    let names: Vec<_> = tools.iter().map(|t| t.name.as_str()).collect();
    assert!(
        !names.contains(&"test-root-skip-when-subcommands"),
        "root should be excluded when using #[clap_mcp(skip_root_when_subcommands)]"
    );
    assert!(names.contains(&"done"), "subcommand 'done' should still be in tool list");
}

#[test]
fn test_clap_mcp_requires_arg() {
    let (root, metadata) = skip_requires_cli();
    let schema = schema_from_command_with_metadata(&root, &metadata);
    let commands = schema.root.all_commands();
    let read_cmd = commands.iter().find(|c| c.name == "read").expect("read command");
    let path_arg = read_cmd.args.iter().find(|a| a.id == "path").expect("path arg");
    assert!(path_arg.required, "path should be required in MCP schema");
}

#[test]
fn test_clap_mcp_requires_arg_single_positional() {
    let (root, metadata) = skip_requires_cli();
    let schema = schema_from_command_with_metadata(&root, &metadata);
    let commands = schema.root.all_commands();
    let sort_cmd = commands.iter().find(|c| c.name == "sort").expect("sort command");
    let versions_arg = sort_cmd.args.iter().find(|a| a.id == "versions").expect("versions arg");
    assert!(
        versions_arg.required,
        "variant-level #[clap_mcp(requires = \"versions\")] should mark versions required in MCP schema"
    );
}

#[test]
fn test_clap_mcp_requires_variant() {
    let (root, metadata) = skip_requires_cli();
    let schema = schema_from_command_with_metadata(&root, &metadata);
    let commands = schema.root.all_commands();
    let process_cmd = commands.iter().find(|c| c.name == "process").expect("process command");
    for arg_id in ["path", "input"] {
        let arg = process_cmd.args.iter().find(|a| a.id == arg_id).expect(arg_id);
        assert!(arg.required, "{} should be required in MCP schema (variant-level requires)", arg_id);
    }
}

#[test]
fn config_tests_test_tools_from_schema_with_config_meta() {
    let schema = schema_from_command(&cmd("test-cli", vec![], vec![cmd("foo", vec![], vec![])]));
    let metadata = ClapMcpSchemaMetadata::default();
    let config_false_false = ClapMcpConfig {
        reinvocation_safe: false,
        parallel_safe: false,
        ..Default::default()
    };
    let tools = tools_from_schema_with_config_and_metadata(&schema, &config_false_false, &metadata);
    assert!(!tools.is_empty());
    for tool in &tools {
        assert!(!tool.meta.reinvocation_safe);
        assert!(!tool.meta.parallel_safe);
    }
    let config_true_true = ClapMcpConfig {
        reinvocation_safe: true,
        parallel_safe: true,
        ..Default::default()
    };
    for tool in &tools_from_schema_with_config(&schema, &config_true_true) {
        assert!(tool.meta.reinvocation_safe);
        assert!(tool.meta.parallel_safe);
        assert!(!tool.meta.share_runtime);
    }
    let config_share_runtime = ClapMcpConfig {
        reinvocation_safe: true,
        parallel_safe: false,
        share_runtime: true,
        ..Default::default()
    };
    for tool in &tools_from_schema_with_config(&schema, &config_share_runtime) {
        assert!(tool.meta.share_runtime);
    }
}

#[test]
fn test_tools_from_schema_with_metadata_output_schema() {
    let metadata = ClapMcpSchemaMetadata {
        output_schema: Some(serde_json::Value::from("object")),
        ..Default::default()
    };
    let schema = schema_from_command_with_metadata(&cmd("test-cli-output-schema", vec![], vec![cmd("foo", vec![], vec![])]), &metadata);
    let tools = tools_from_schema_with_config_and_metadata(&schema, &ClapMcpConfig::default(), &metadata);
    assert_eq!(tools.len(), 2);
    for tool in &tools {
        assert!(tool.output_schema.is_some(), "tool {} should have output_schema when metadata has it", tool.name);
    }
}

#[test]
fn filter_is_idempotent() {
    let (root, metadata) = skip_requires_cli();
    let mut root = root;
    root.args = vec![arg("zeta", Some("zeta"), None, false), arg("help", Some("help"), None, false), arg("alpha", None, Some(1), false)];
    let once = schema_from_command_with_metadata(&root, &metadata);
    let twice = schema_from_command_with_metadata(&once.root, &metadata);
    assert_eq!(format!("{:?}", once), format!("{:?}", twice));
    let ids: Vec<_> = once.root.args.iter().map(|a| a.id.as_str()).collect();
    assert_eq!(ids, vec!["alpha", "zeta"]);
}

#[test]
fn all_commands_is_preorder_and_stable() {
    let root = cmd(
        "root",
        vec![],
        vec![
            cmd("a", vec![], vec![cmd("a1", vec![], vec![]), cmd("a2", vec![], vec![])]),
            cmd("b", vec![], vec![cmd("b1", vec![], vec![])]),
        ],
    );
    let first: Vec<_> = root.all_commands().iter().map(|c| c.name.clone()).collect();
    let second: Vec<_> = root.all_commands().iter().map(|c| c.name.clone()).collect();
    assert_eq!(first, vec!["root", "a", "a1", "a2", "b", "b1"]);
    assert_eq!(first, second);
}

#[test]
fn catalog_describes_each_command() {
    let mut path = arg("path", None, Some(1), true);
    path.help = Some("short".to_string());
    path.long_help = Some("long".to_string());
    let mut verbose = arg("verbose", Some("verbose"), None, false);
    verbose.help = Some("be loud".to_string());
    let mut root = cmd("app", vec![path, verbose, arg("version", Some("version"), None, false)], vec![]);
    root.about = Some("about".to_string());
    root.long_about = Some("long about".to_string());
    let tools = tools_from_schema(&schema_from_command(&root));
    assert_eq!(tools.len(), 1);
    let t = &tools[0];
    assert_eq!(t.name, "app");
    assert_eq!(t.title.as_deref(), Some("about"));
    assert_eq!(t.description.as_deref(), Some("long about"));
    assert_eq!(t.required, vec!["path".to_string()]);
    let props: Vec<_> = t.properties.iter().map(|p| (p.name.as_str(), p.description.as_deref())).collect();
    assert_eq!(props, vec![("path", Some("long")), ("verbose", Some("be loud"))]);
    assert!(t.output_schema.is_none());
}

#[test]
fn builtin_arg_ids() {
    assert!(is_builtin_arg("help"));
    assert!(is_builtin_arg("version"));
    assert!(is_builtin_arg("mcp"));
    assert!(!is_builtin_arg("path"));
}
