//! Exposes a command-line program's command tree as a catalog of remotely callable
//! tools, and decides how each call is validated, marshaled and dispatched.

pub mod text;
pub mod json;
pub mod schema;
pub mod filter;
pub mod config;
pub mod logging;
pub mod output;
pub mod marshal;
pub mod catalog;
pub mod dispatch;

pub use catalog::{
    command_to_tool_with_config, tools_from_schema, tools_from_schema_with_config,
    tools_from_schema_with_config_and_metadata, ToolDescriptor, ToolProperty, ToolSafety,
};
pub use config::{
    select_async_runtime, AsyncRuntime, ClapMcpConfig, ClapMcpConfigProvider, LoopKind,
    RuntimeError,
};
pub use dispatch::{
    check_call, fault_outcome, format_panic_payload, in_process_outcome, merge_captured_stdout,
    prepare_invocation, requests_mcp_without_subcommand, stderr_notification, subprocess_outcome,
    CallRejection, Invocation, StderrRecord, ToolCallOutcome,
};
pub use filter::{
    schema_from_command, schema_from_command_with_metadata, ClapMcpSchemaMetadata,
    ClapMcpSchemaMetadataProvider,
};
pub use logging::{
    level_to_mcp, LogLevel, LOGGING_GUIDE_CONTENT, LOG_INTERPRETATION_INSTRUCTIONS,
    PROMPT_LOGGING_GUIDE,
};
pub use marshal::{
    build_argv_for_clap, build_tool_argv, validate_required_args, value_to_string, ArgValue,
};
pub use output::{
    opt_str, AsStructured, ClapMcpRunnable, ClapMcpToolError, ClapMcpToolExecutor,
    ClapMcpToolOutput, IntoClapMcpResult, IntoClapMcpToolError,
};
pub use schema::{is_builtin_arg, ClapArg, ClapCommand, ClapSchema, MCP_FLAG_LONG};
