//! What a tool body produces: text or structured output, or an error, and the
//! conversions that turn a program's own results into them.

use vstd::prelude::*;
use crate::json::json_text;

verus! {

/// Output of one tool call.
#[derive(Debug, Clone)]
pub enum ClapMcpToolOutput {
    /// Plain text, as the program would print it.
    Text(String),
    /// JSON for machine consumption.
    Structured(serde_json::Value),
}

impl ClapMcpToolOutput {
    /// The text of `Text`, or the compact JSON text of `Structured`.
    pub fn into_string(self) -> (r: String)
        ensures
            self matches ClapMcpToolOutput::Text(s) ==> r@ == s@,
    {
        match self {
            ClapMcpToolOutput::Text(s) => s,
            ClapMcpToolOutput::Structured(v) => json_text(&v),
        }
    }

    /// The text of `Text`; `None` for `Structured`.
    pub fn as_text(&self) -> (r: Option<&str>)
        ensures
            match self {
                ClapMcpToolOutput::Text(s) => r is Some && r->0@ == s@,
                ClapMcpToolOutput::Structured(_) => r is None,
            },
    {
        match self {
            ClapMcpToolOutput::Text(s) => Some(s.as_str()),
            ClapMcpToolOutput::Structured(_) => None,
        }
    }

    /// The value of `Structured`; `None` for `Text`.
    pub fn as_structured(&self) -> (r: Option<&serde_json::Value>)
        ensures
            match self {
                ClapMcpToolOutput::Text(_) => r is None,
                ClapMcpToolOutput::Structured(v) => r == Some(v),
            },
    {
        match self {
            ClapMcpToolOutput::Text(_) => None,
            ClapMcpToolOutput::Structured(v) => Some(v),
        }
    }
}

/// A tool's own declared failure: a message, and optionally structured detail.
#[derive(Debug, Clone)]
pub struct ClapMcpToolError {
    pub message: String,
    pub structured: Option<serde_json::Value>,
}

impl ClapMcpToolError {
    /// A plain text error.
    pub fn text(message: &str) -> (r: Self)
        ensures
            r.message@ == message@,
            r.structured is None,
    {
        ClapMcpToolError { message: message.to_owned(), structured: None }
    }

    /// An error with structured detail.
    pub fn structured(message: &str, value: serde_json::Value) -> (r: Self)
        ensures
            r.message@ == message@,
            r.structured == Some(value),
    {
        ClapMcpToolError { message: message.to_owned(), structured: Some(value) }
    }
}

impl From<String> for ClapMcpToolError {
    fn from(s: String) -> (r: Self) {
        ClapMcpToolError { message: s, structured: None }
    }
}

impl vstd::std_specs::convert::FromSpecImpl<String> for ClapMcpToolError {
    open spec fn obeys_from_spec() -> bool {
        true
    }

    open spec fn from_spec(s: String) -> Self {
        ClapMcpToolError { message: s, structured: None }
    }
}

/// Turns the return value of a program's run function into tool output or error.
pub trait IntoClapMcpResult {
    fn into_tool_result(self) -> Result<ClapMcpToolOutput, ClapMcpToolError>;
}

impl IntoClapMcpResult for String {
    fn into_tool_result(self) -> Result<ClapMcpToolOutput, ClapMcpToolError> {
        Ok(ClapMcpToolOutput::Text(self))
    }
}

impl<'a> IntoClapMcpResult for &'a str {
    fn into_tool_result(self) -> Result<ClapMcpToolOutput, ClapMcpToolError> {
        Ok(ClapMcpToolOutput::Text(self.to_owned()))
    }
}

/// Marks a run function's value as structured (JSON) output.
#[derive(Debug, Clone)]
pub struct AsStructured<T>(pub T);

impl IntoClapMcpResult for AsStructured<serde_json::Value> {
    fn into_tool_result(self) -> Result<ClapMcpToolOutput, ClapMcpToolError> {
        Ok(ClapMcpToolOutput::Structured(self.0))
    }
}

impl<O: IntoClapMcpResult> IntoClapMcpResult for Option<O> {
    /// `None` is empty text.
    fn into_tool_result(self) -> Result<ClapMcpToolOutput, ClapMcpToolError> {
        match self {
            None => Ok(ClapMcpToolOutput::Text(String::new())),
            Some(o) => o.into_tool_result(),
        }
    }
}

/// Turns a run function's error into a tool error.
pub trait IntoClapMcpToolError {
    fn into_tool_error(self) -> ClapMcpToolError;
}

impl IntoClapMcpToolError for String {
    fn into_tool_error(self) -> ClapMcpToolError {
        ClapMcpToolError { message: self, structured: None }
    }
}

impl<'a> IntoClapMcpToolError for &'a str {
    fn into_tool_error(self) -> ClapMcpToolError {
        ClapMcpToolError::text(self)
    }
}

impl<O: IntoClapMcpResult, E: IntoClapMcpToolError> IntoClapMcpResult for Result<O, E> {
    fn into_tool_result(self) -> Result<ClapMcpToolOutput, ClapMcpToolError> {
        match self {
            Ok(o) => o.into_tool_result(),
            Err(e) => Err(e.into_tool_error()),
        }
    }
}

/// Produces tool output for a parsed command line, in-process.
pub trait ClapMcpToolExecutor {
    fn execute_for_mcp(self) -> Result<ClapMcpToolOutput, ClapMcpToolError>;
}

/// Produces the output text for a parsed command line.
pub trait ClapMcpRunnable {
    fn run(self) -> String;
}

impl<T: ClapMcpToolExecutor> ClapMcpRunnable for T {
    /// The output's text, or the error's message.
    fn run(self) -> String {
        match self.execute_for_mcp() {
            Ok(o) => o.into_string(),
            Err(e) => e.message,
        }
    }
}

/// The text of `opt`, or `default` when it is `None`.
pub fn opt_str<'a>(opt: &'a Option<String>, default: &'a str) -> (r: &'a str)
    ensures
        r@ == match opt {
            Some(s) => s@,
            None => default@,
        },
{
    match opt {
        Some(s) => s.as_str(),
        None => default,
    }
}

} // verus!
