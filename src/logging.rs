//! Log levels and the fixed texts that tell clients how to read forwarded logs.

use vstd::prelude::*;
use crate::text::str_eq;

verus! {

/// Logger name of forwarded subprocess stderr.
pub const STDERR_LOGGER: &'static str = "stderr";

/// Default logger name of in-process application logs.
pub const APP_LOGGER: &'static str = "app";

/// How clients should read the `logger` field of forwarded log messages.
pub const LOG_INTERPRETATION_INSTRUCTIONS: &'static str = r#"When this server emits log messages (notifications/message), the `logger` field indicates the source:
- "stderr": Subprocess stderr (CLI tools run as subprocesses)
- "app": In-process application logs
- Other: Application-defined logger names"#;

/// Name of the prompt that explains forwarded logs.
pub const PROMPT_LOGGING_GUIDE: &'static str = "clap-mcp-logging-guide";

/// Text of the prompt that explains forwarded logs.
pub const LOGGING_GUIDE_CONTENT: &'static str = r#"# clap-mcp Logging Guide

When this server emits log messages (notifications/message), use the `logger` field to interpret the source:

- **"stderr"**: Output from subprocess stderr (CLI tools run as subprocesses). The `meta` field may include `tool` for the command name.
- **"app"**: In-process application logs.
- **Other**: Application-defined logger names.

The `level` field uses RFC 5424 syslog severity: debug, info, notice, warning, error, critical, alert, emergency.
The `data` field contains the message (string or JSON object)."#;

/// Syslog severities that log notifications carry.
#[derive(Debug, Clone, Copy, PartialEq, Eq, Structural)]
pub enum LogLevel {
    Debug,
    Info,
    Notice,
    Warning,
    Error,
    Critical,
    Alert,
    Emergency,
}

pub open spec fn level_of(s: Seq<char>) -> LogLevel {
    if s == "trace"@ || s == "debug"@ {
        LogLevel::Debug
    } else if s == "notice"@ || s == "warn"@ || s == "warning"@ {
        LogLevel::Notice
    } else if s == "error"@ {
        LogLevel::Error
    } else if s == "critical"@ {
        LogLevel::Critical
    } else if s == "alert"@ {
        LogLevel::Alert
    } else if s == "emergency"@ {
        LogLevel::Emergency
    } else {
        LogLevel::Info
    }
}

/// Maps a level name to a severity: trace and debug to debug; notice, warn and
/// warning to notice; error, critical, alert and emergency to themselves; anything
/// else, info included, to info.
pub fn level_to_mcp(level: &str) -> (r: LogLevel)
    ensures
        r == level_of(level@),
{
    if str_eq(level, "trace") || str_eq(level, "debug") {
        LogLevel::Debug
    } else if str_eq(level, "notice") || str_eq(level, "warn") || str_eq(level, "warning") {
        LogLevel::Notice
    } else if str_eq(level, "error") {
        LogLevel::Error
    } else if str_eq(level, "critical") {
        LogLevel::Critical
    } else if str_eq(level, "alert") {
        LogLevel::Alert
    } else if str_eq(level, "emergency") {
        LogLevel::Emergency
    } else {
        LogLevel::Info
    }
}

} // verus!
