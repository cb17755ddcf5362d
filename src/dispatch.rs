//! The call dispatcher's decisions: which calls are rejected before any work, how an
//! accepted call is invoked, and how each kind of outcome becomes a tool result.

use vstd::prelude::*;
use vstd::string::*;
use crate::catalog::ToolDescriptor;
use crate::config::ClapMcpConfig;
use crate::json::json_pretty_text;
use crate::marshal::{
    build_argv_for_clap, build_tool_argv, parse_argv, required_check, tool_argv,
    validate_required_args, ArgValue,
};
use crate::output::{ClapMcpToolError, ClapMcpToolOutput};
use crate::schema::ClapSchema;
use crate::text::{decimal, decimal_text, str_eq, trim_of, trimmed, views};

verus! {

/// Why a call is refused before it reaches any tool body.
#[derive(Debug, Clone, PartialEq, Eq)]
pub enum CallRejection {
    /// No tool has the requested name.
    UnknownTool(String),
    /// The call names an argument that the tool does not declare.
    UnknownArgument { tool: String, argument: String },
}

/// The position of the first tool named `name`, at or after `from`.
pub open spec fn first_tool(tools: Seq<ToolDescriptor>, name: Seq<char>, from: int) -> Option<int>
    decreases tools.len() - from,
{
    if from < 0 || from >= tools.len() {
        None
    } else if tools[from].name@ == name {
        Some(from)
    } else {
        first_tool(tools, name, from + 1)
    }
}

/// Whether a tool declares an input property `key`.
pub open spec fn declares(t: ToolDescriptor, key: Seq<char>) -> bool {
    exists|j: int| 0 <= j < t.properties@.len() && #[trigger] t.properties@[j].name@ == key
}

/// The position of the first argument, at or after `from`, that the tool does not declare.
pub open spec fn first_undeclared(t: ToolDescriptor, args: Seq<(String, ArgValue)>, from: int) -> Option<int>
    decreases args.len() - from,
{
    if from < 0 || from >= args.len() {
        None
    } else if !declares(t, args[from].0@) {
        Some(from)
    } else {
        first_undeclared(t, args, from + 1)
    }
}

proof fn lemma_first_tool(tools: Seq<ToolDescriptor>, name: Seq<char>, from: int)
    requires
        0 <= from,
    ensures
        first_tool(tools, name, from) matches Some(i) ==> from <= i < tools.len() && tools[i].name@ == name,
        first_tool(tools, name, from) is None ==> forall|k: int| from <= k < tools.len() ==> tools[k].name@ != name,
    decreases tools.len() - from,
{
    if from < tools.len() && tools[from].name@ != name {
        lemma_first_tool(tools, name, from + 1);
    }
}

proof fn lemma_first_undeclared(t: ToolDescriptor, args: Seq<(String, ArgValue)>, from: int)
    requires
        0 <= from,
    ensures
        first_undeclared(t, args, from) matches Some(k) ==> from <= k < args.len() && !declares(t, args[k].0@),
        first_undeclared(t, args, from) is None ==> forall|k: int| from <= k < args.len() ==> declares(t, #[trigger] args[k].0@),
    decreases args.len() - from,
{
    if from < args.len() && declares(t, args[from].0@) {
        lemma_first_undeclared(t, args, from + 1);
    }
}

fn declares_key(t: &ToolDescriptor, key: &str) -> (r: bool)
    ensures
        r == declares(*t, key@),
{
    let mut j: usize = 0;
    while j < t.properties.len()
        invariant
            j <= t.properties@.len(),
            forall|k: int| 0 <= k < j ==> t.properties@[k].name@ != key@,
        decreases t.properties.len() - j,
    {
        if str_eq(t.properties[j].name.as_str(), key) {
            return true;
        }
        j = j + 1;
    }
    false
}

fn find_tool(tools: &Vec<ToolDescriptor>, name: &str) -> (r: Option<usize>)
    ensures
        r matches Some(i) ==> first_tool(tools@, name@, 0) == Some(i as int),
        r is None ==> first_tool(tools@, name@, 0) is None,
{
    let mut i: usize = 0;
    while i < tools.len()
        invariant
            i <= tools@.len(),
            first_tool(tools@, name@, 0) == first_tool(tools@, name@, i as int),
        decreases tools.len() - i,
    {
        if str_eq(tools[i].name.as_str(), name) {
            return Some(i);
        }
        i = i + 1;
    }
    None
}

/// Checks a call before any work: the tool must exist (the first with that name is
/// used), and every argument key must be one of its declared properties. A call with
/// an undeclared key is refused, naming the first such key, and never reaches a tool
/// body.
pub fn check_call(tools: &Vec<ToolDescriptor>, name: &str, args: &Vec<(String, ArgValue)>) -> (r: Result<usize, CallRejection>)
    ensures
        match first_tool(tools@, name@, 0) {
            None => r matches Err(CallRejection::UnknownTool(n)) && n@ == name@,
            Some(i) => match first_undeclared(tools@[i], args@, 0) {
                Some(k) => r matches Err(CallRejection::UnknownArgument { tool, argument })
                    && tool@ == name@ && argument@ == args@[k].0@,
                None => r == Ok::<usize, CallRejection>(i as usize),
            },
        },
        (exists|k: int| 0 <= k < args@.len() && !declares(tools@[r->Ok_0 as int], #[trigger] args@[k].0@))
            ==> !(r is Ok),
        r matches Ok(i) ==> i < tools@.len() && tools@[i as int].name@ == name@,
{
    proof {
        lemma_first_tool(tools@, name@, 0);
    }
    let i = match find_tool(tools, name) {
        None => return Err(CallRejection::UnknownTool(name.to_owned())),
        Some(i) => i,
    };
    let tool = &tools[i];
    let mut k: usize = 0;
    while k < args.len()
        invariant
            i < tools@.len(),
            first_tool(tools@, name@, 0) == Some(i as int),
            *tool == tools@[i as int],
            k <= args@.len(),
            first_undeclared(*tool, args@, 0) == first_undeclared(*tool, args@, k as int),
        decreases args.len() - k,
    {
        if !declares_key(tool, args[k].0.as_str()) {
            return Err(CallRejection::UnknownArgument { tool: name.to_owned(), argument: args[k].0.clone() });
        }
        k = k + 1;
    }
    proof {
        lemma_first_undeclared(*tool, args@, 0);
    }
    Ok(i)
}

impl CallRejection {
    /// The text that accompanies a rejection.
    pub fn message(&self) -> (r: String)
        ensures
            match self {
                CallRejection::UnknownTool(n) => r@ == "unknown tool: "@ + n@,
                CallRejection::UnknownArgument { argument, .. } => r@ == "unknown argument: "@ + argument@,
            },
    {
        match self {
            CallRejection::UnknownTool(n) => String::from_str("unknown tool: ").concat(n.as_str()),
            CallRejection::UnknownArgument { argument, .. } => String::from_str("unknown argument: ").concat(argument.as_str()),
        }
    }
}

/// How an accepted call is carried out.
#[derive(Debug, Clone, PartialEq, Eq)]
pub enum Invocation {
    /// Spawn the program with these arguments after the program path.
    Subprocess { argv: Vec<String> },
    /// Re-parse this full argument vector and run the business logic in-process.
    InProcess { argv: Vec<String> },
}

/// The arguments after the program path for a subprocess call: the command name
/// unless it is the root, then the marshaled tokens.
pub open spec fn subprocess_argv(schema: crate::schema::CommandView, name: Seq<char>, args: Seq<(String, ArgValue)>) -> Seq<Seq<char>> {
    (if name == schema.name { Seq::empty() } else { seq![name] }) + tool_argv(schema, name, args)
}

/// Decides how an accepted call runs, after the required arguments are checked: a
/// subprocess unless the program is reinvocation-safe, in-process otherwise. A call
/// missing required arguments is refused with a message naming all of them.
pub fn prepare_invocation(schema: &ClapSchema, config: &ClapMcpConfig, name: &str, args: &Vec<(String, ArgValue)>) -> (r: Result<Invocation, String>)
    ensures
        match required_check(schema.root@, name@, args@) {
            Err(m) => r matches Err(e) && e@ == m,
            Ok(()) => match r {
                Ok(Invocation::Subprocess { argv }) => !config.reinvocation_safe
                    && views(argv@) == subprocess_argv(schema.root@, name@, args@),
                Ok(Invocation::InProcess { argv }) => config.reinvocation_safe
                    && views(argv@) == parse_argv(schema.root@, name@, args@),
                Err(_) => false,
            },
        },
{
    match validate_required_args(schema, name, args) {
        Err(m) => return Err(m),
        Ok(()) => {},
    }
    if config.reinvocation_safe {
        return Ok(Invocation::InProcess { argv: build_argv_for_clap(schema, name, args) });
    }
    let tokens = build_tool_argv(schema, name, args);
    let mut argv: Vec<String> = Vec::new();
    if !str_eq(name, schema.root.name.as_str()) {
        argv.push(name.to_owned());
    }
    let ghost head = views(argv@);
    let ghost tv = views(tokens@);
    let mut k: usize = 0;
    while k < tokens.len()
        invariant
            k <= tokens@.len(),
            tv == views(tokens@),
            views(argv@) == head + tv.subrange(0, k as int),
        decreases tokens.len() - k,
    {
        let ghost prev = views(argv@);
        argv.push(tokens[k].clone());
        assert(views(argv@) == prev.push(tv[k as int]));
        assert(tv.subrange(0, k + 1) == tv.subrange(0, k as int).push(tv[k as int]));
        assert(head + tv.subrange(0, k + 1) == (head + tv.subrange(0, k as int)).push(tv[k as int]));
        k = k + 1;
    }
    assert(tv.subrange(0, tv.len() as int) == tv);
    Ok(Invocation::Subprocess { argv })
}

/// A tool result: its text content, whether it is an error, and structured content.
#[derive(Debug, Clone)]
pub struct ToolCallOutcome {
    pub text: String,
    pub is_error: bool,
    pub structured: Option<serde_json::Value>,
}

pub open spec fn code_text(code: Option<i32>) -> Seq<char> {
    match code {
        Some(c) => decimal(c as int),
        None => "unknown"@,
    }
}

pub open spec fn stderr_suffix(stderr: Seq<char>) -> Seq<char> {
    if stderr.len() == 0 {
        Seq::empty()
    } else {
        "\nstderr:\n"@ + trim_of(stderr)
    }
}

/// The text of a subprocess result: for a non-zero or unknown exit, the exit code and
/// trimmed stderr when there is any; for exit 0, trimmed stdout, then trimmed stderr
/// when there is any.
pub open spec fn subprocess_text(code: Option<i32>, stdout: Seq<char>, stderr: Seq<char>) -> Seq<char> {
    if code != Some(0i32) {
        "Tool process exited with non-zero status (code: "@ + code_text(code) + ")"@ + stderr_suffix(stderr)
    } else {
        trim_of(stdout) + stderr_suffix(stderr)
    }
}

fn with_stderr(head: String, stderr: &str) -> (r: String)
    ensures
        r@ == head@ + stderr_suffix(stderr@),
{
    if stderr.unicode_len() == 0 {
        head
    } else {
        let t = trimmed(stderr);
        head.concat("\nstderr:\n").concat(t.as_str())
    }
}

/// Turns a finished subprocess into a tool result. Only exit code 0 is success; any
/// other code, or none (killed by a signal), is an error naming the code.
pub fn subprocess_outcome(exit_code: Option<i32>, stdout: &str, stderr: &str) -> (r: ToolCallOutcome)
    ensures
        r.text@ == subprocess_text(exit_code, stdout@, stderr@),
        r.is_error == (exit_code != Some(0i32)),
        r.structured is None,
{
    match exit_code {
        Some(0) => {
            let out = trimmed(stdout);
            ToolCallOutcome { text: with_stderr(out, stderr), is_error: false, structured: None }
        },
        _ => {
            let code = match exit_code {
                Some(c) => decimal_text(c),
                None => String::from_str("unknown"),
            };
            let head = String::from_str("Tool process exited with non-zero status (code: ")
                .concat(code.as_str())
                .concat(")");
            ToolCallOutcome { text: with_stderr(head, stderr), is_error: true, structured: None }
        },
    }
}

/// A log record that forwards a subprocess's stderr under the `stderr` logger.
#[derive(Debug, Clone)]
pub struct StderrRecord {
    /// The tool whose process wrote it.
    pub tool: String,
    /// The trimmed stderr text.
    pub data: String,
}

/// The log record for a subprocess's stderr, whatever its exit status: one exactly
/// when stderr is not empty.
pub fn stderr_notification(tool: &str, stderr: &str) -> (r: Option<StderrRecord>)
    ensures
        r is Some <==> stderr@.len() > 0,
        r matches Some(rec) ==> rec.tool@ == tool@ && rec.data@ == trim_of(stderr@),
{
    if stderr.unicode_len() == 0 {
        None
    } else {
        Some(StderrRecord { tool: tool.to_owned(), data: trimmed(stderr) })
    }
}

/// Turns the result of an in-process tool body into a tool result: text as it is,
/// structured output as indented JSON text with the value as structured content, and a
/// tool error as an error result with its message and detail.
pub fn in_process_outcome(result: Result<ClapMcpToolOutput, ClapMcpToolError>) -> (r: ToolCallOutcome)
    ensures
        match result {
            Ok(ClapMcpToolOutput::Text(s)) => r.text@ == s@ && !r.is_error && r.structured is None,
            Ok(ClapMcpToolOutput::Structured(v)) => !r.is_error && r.structured == Some(v),
            Err(e) => r.text@ == e.message@ && r.is_error && r.structured == e.structured,
        },
{
    match result {
        Ok(ClapMcpToolOutput::Text(s)) => ToolCallOutcome { text: s, is_error: false, structured: None },
        Ok(ClapMcpToolOutput::Structured(v)) => {
            let text = json_pretty_text(&v);
            ToolCallOutcome { text, is_error: false, structured: Some(v) }
        },
        Err(e) => ToolCallOutcome { text: e.message, is_error: true, structured: e.structured },
    }
}

/// The message of a fault: its text payload, or `<panic>` when it carries no text.
pub fn format_panic_payload(payload: Option<String>) -> (r: String)
    ensures
        r@ == match payload {
            Some(s) => s@,
            None => "<panic>"@,
        },
{
    match payload {
        Some(s) => s,
        None => String::from_str("<panic>"),
    }
}

/// The error result for a caught fault in an in-process tool body, naming the fault.
pub fn fault_outcome(payload: Option<String>) -> (r: ToolCallOutcome)
    ensures
        r.is_error,
        r.text@ == "Tool panicked: "@ + match payload {
            Some(s) => s@,
            None => "<panic>"@,
        },
        r.structured is None,
{
    let msg = format_panic_payload(payload);
    ToolCallOutcome { text: String::from_str("Tool panicked: ").concat(msg.as_str()), is_error: true, structured: None }
}

/// Text output merged with stdout captured while the tool body ran.
pub open spec fn merged_text(s: Seq<char>, captured: Seq<char>) -> Seq<char> {
    if s.len() == 0 {
        trim_of(captured)
    } else if trim_of(captured).len() == 0 {
        s
    } else {
        s + "\n"@ + trim_of(captured)
    }
}

/// Merges captured stdout into text output: empty text becomes the trimmed capture,
/// otherwise the trimmed capture follows on a new line when it is not blank. Other
/// results, and an empty capture, leave the result as it is.
pub fn merge_captured_stdout(result: Result<ClapMcpToolOutput, ClapMcpToolError>, captured: &str) -> (r: Result<ClapMcpToolOutput, ClapMcpToolError>)
    ensures
        match result {
            Ok(ClapMcpToolOutput::Text(s)) => if captured@.len() == 0 {
                r == result
            } else {
                r matches Ok(ClapMcpToolOutput::Text(m)) && m@ == merged_text(s@, captured@)
            },
            _ => r == result,
        },
{
    match result {
        Ok(ClapMcpToolOutput::Text(s)) => {
            if captured.unicode_len() == 0 {
                return Ok(ClapMcpToolOutput::Text(s));
            }
            let cap = trimmed(captured);
            if s.unicode_len() == 0 {
                Ok(ClapMcpToolOutput::Text(cap))
            } else if cap.unicode_len() == 0 {
                Ok(ClapMcpToolOutput::Text(s))
            } else {
                Ok(ClapMcpToolOutput::Text(s.concat("\n").concat(cap.as_str())))
            }
        },
        other => other,
    }
}

/// Whether arguments (program name excluded) ask for server mode without naming a
/// root-level subcommand: `--mcp` is among them and none is a subcommand name.
pub fn requests_mcp_without_subcommand(args: &Vec<String>, subcommand_names: &Vec<String>) -> (r: bool)
    ensures
        r == (views(args@).contains("--mcp"@)
            && !exists|i: int| 0 <= i < args@.len() && views(subcommand_names@).contains(#[trigger] args@[i]@)),
{
    let mut has_mcp = false;
    let mut has_sub = false;
    let mut i: usize = 0;
    while i < args.len()
        invariant
            i <= args@.len(),
            has_mcp == exists|k: int| 0 <= k < i && #[trigger] args@[k]@ == "--mcp"@,
            has_sub == exists|k: int| 0 <= k < i && views(subcommand_names@).contains(#[trigger] args@[k]@),
        decreases args.len() - i,
    {
        if str_eq(args[i].as_str(), "--mcp") {
            has_mcp = true;
        }
        let mut j: usize = 0;
        let mut named = false;
        while j < subcommand_names.len()
            invariant
                i < args@.len(),
                j <= subcommand_names@.len(),
                named == exists|q: int| 0 <= q < j && subcommand_names@[q]@ == args@[i as int]@,
            decreases subcommand_names.len() - j,
        {
            if str_eq(subcommand_names[j].as_str(), args[i].as_str()) {
                named = true;
            }
            j = j + 1;
        }
        proof {
            if named {
                let q = choose|q: int| 0 <= q < j && subcommand_names@[q]@ == args@[i as int]@;
                assert(views(subcommand_names@)[q] == args@[i as int]@);
            } else {
                if views(subcommand_names@).contains(args@[i as int]@) {
                    let q = choose|q: int| 0 <= q < views(subcommand_names@).len() && views(subcommand_names@)[q] == args@[i as int]@;
                    assert(subcommand_names@[q]@ == args@[i as int]@);
                }
            }
        }
        if named {
            has_sub = true;
        }
        i = i + 1;
    }
    proof {
        if has_mcp {
            let k = choose|k: int| 0 <= k < args@.len() && #[trigger] args@[k]@ == "--mcp"@;
            assert(views(args@)[k] == "--mcp"@);
        }
        if views(args@).contains("--mcp"@) {
            let k = choose|k: int| 0 <= k < views(args@).len() && views(args@)[k] == "--mcp"@;
            assert(args@[k]@ == "--mcp"@);
        }
    }
    has_mcp && !has_sub
}

} // verus!
