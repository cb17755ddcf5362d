//! Configuration, tool output and executor behaviour, with the trait impls that a
//! program declares for itself written out by hand.

use clap_mcp::config::{ClapMcpConfig, ClapMcpConfigProvider};
use clap_mcp::logging::{LOGGING_GUIDE_CONTENT, LOG_INTERPRETATION_INSTRUCTIONS, PROMPT_LOGGING_GUIDE};
use clap_mcp::output::{
    ClapMcpRunnable, ClapMcpToolError, ClapMcpToolExecutor, ClapMcpToolOutput, IntoClapMcpResult,
};
use clap_mcp::filter::ClapMcpSchemaMetadata;

fn config(reinvocation_safe: bool, parallel_safe: bool, share_runtime: bool) -> ClapMcpConfig {
    ClapMcpConfig {
        reinvocation_safe,
        parallel_safe,
        share_runtime,
        ..Default::default()
    }
}

#[derive(Debug)]
enum TestCliDefaults {
    Foo,
}

impl ClapMcpConfigProvider for TestCliDefaults {
    fn clap_mcp_config() -> ClapMcpConfig {
        config(false, false, false)
    }
}

impl ClapMcpToolExecutor for TestCliDefaults {
    fn execute_for_mcp(self) -> Result<ClapMcpToolOutput, ClapMcpToolError> {
        match self {
            TestCliDefaults::Foo => Ok(ClapMcpToolOutput::Text("foo".to_string())),
        }
    }
}

enum TestCliBothTrue {}

impl ClapMcpConfigProvider for TestCliBothTrue {
    fn clap_mcp_config() -> ClapMcpConfig {
        config(true, true, false)
    }
}

enum TestCliParallelOnly {}

impl ClapMcpConfigProvider for TestCliParallelOnly {
    fn clap_mcp_config() -> ClapMcpConfig {
        config(false, true, false)
    }
}

enum TestCliReinvokeOnly {
    Qux { x: i32 },
}

impl ClapMcpConfigProvider for TestCliReinvokeOnly {
    fn clap_mcp_config() -> ClapMcpConfig {
        config(true, false, false)
    }
}

impl ClapMcpToolExecutor for TestCliReinvokeOnly {
    fn execute_for_mcp(self) -> Result<ClapMcpToolOutput, ClapMcpToolError> {
        match self {
            TestCliReinvokeOnly::Qux { x } => Ok(ClapMcpToolOutput::Text(format!("result: {}", x))),
        }
    }
}

enum TestCliShareRuntime {}

impl ClapMcpConfigProvider for TestCliShareRuntime {
    fn clap_mcp_config() -> ClapMcpConfig {
        config(true, false, true)
    }
}

struct TestStructCli {
    command: TestStructCommands,
}

enum TestStructCommands {
    Add { a: i32, b: i32 },
}

impl ClapMcpConfigProvider for TestStructCli {
    fn clap_mcp_config() -> ClapMcpConfig {
        config(true, false, false)
    }
}

impl ClapMcpToolExecutor for TestStructCli {
    fn execute_for_mcp(self) -> Result<ClapMcpToolOutput, ClapMcpToolError> {
        match self.command {
            TestStructCommands::Add { a, b } => Ok(ClapMcpToolOutput::Text(format!("sum: {}", a + b))),
        }
    }
}

struct TestStructOptionalCli {
    command: Option<TestStructOptionalCommands>,
}

enum TestStructOptionalCommands {
    Done,
}

impl ClapMcpToolExecutor for TestStructOptionalCli {
    fn execute_for_mcp(self) -> Result<ClapMcpToolOutput, ClapMcpToolError> {
        match self.command {
            None => Ok(ClapMcpToolOutput::Text(String::new())),
            Some(TestStructOptionalCommands::Done) => Ok(ClapMcpToolOutput::Text("done".to_string())),
        }
    }
}

fn sub_result(a: i64, b: i64) -> serde_json::Value {
    let mut m = serde_json::Map::new();
    m.insert("difference".to_string(), serde_json::Value::from(a - b));
    m.insert("minuend".to_string(), serde_json::Value::from(a));
    m.insert("subtrahend".to_string(), serde_json::Value::from(b));
    serde_json::Value::Object(m)
}

enum TestCliStructured {
    Sub { a: i64, b: i64 },
}

impl ClapMcpToolExecutor for TestCliStructured {
    fn execute_for_mcp(self) -> Result<ClapMcpToolOutput, ClapMcpToolError> {
        match self {
            TestCliStructured::Sub { a, b } => Ok(ClapMcpToolOutput::Structured(sub_result(a, b))),
        }
    }
}

enum TestCliOutputFrom {
    TextOut { x: i32 },
    OptionOut { present: bool },
    ResultOk,
    ResultErr,
    StructuredOut { a: i64, b: i64 },
}

enum OutputFromResult {
    Text(String),
    Empty,
    Structured(serde_json::Value),
}

impl IntoClapMcpResult for OutputFromResult {
    fn into_tool_result(self) -> Result<ClapMcpToolOutput, ClapMcpToolError> {
        match self {
            OutputFromResult::Text(s) => Ok(ClapMcpToolOutput::Text(s)),
            OutputFromResult::Empty => Ok(ClapMcpToolOutput::Text(String::new())),
            OutputFromResult::Structured(v) => Ok(ClapMcpToolOutput::Structured(v)),
        }
    }
}

fn run(cmd: TestCliOutputFrom) -> Result<OutputFromResult, String> {
    match cmd {
        TestCliOutputFrom::TextOut { x } => Ok(OutputFromResult::Text(format!("x={}", x))),
        TestCliOutputFrom::OptionOut { present } => {
            if present {
                Ok(OutputFromResult::Text("some".to_string()))
            } else {
                Ok(OutputFromResult::Empty)
            }
        }
        TestCliOutputFrom::ResultOk => Ok(OutputFromResult::Text("ok".to_string())),
        TestCliOutputFrom::ResultErr => Err("fail".to_string()),
        TestCliOutputFrom::StructuredOut { a, b } => Ok(OutputFromResult::Structured(sub_result(a, b))),
    }
}

impl ClapMcpToolExecutor for TestCliOutputFrom {
    fn execute_for_mcp(self) -> Result<ClapMcpToolOutput, ClapMcpToolError> {
        run(self).into_tool_result()
    }
}

enum TestCliResult {
    Sqrt { n: i32 },
    Double { x: i32 },
}

impl ClapMcpToolExecutor for TestCliResult {
    fn execute_for_mcp(self) -> Result<ClapMcpToolOutput, ClapMcpToolError> {
        let r: Result<String, String> = match self {
            TestCliResult::Sqrt { n } => {
                if n >= 0 {
                    Ok(format!("sqrt ~{}", n))
                } else {
                    Err(format!("negative: {}", n))
                }
            }
            TestCliResult::Double { x } => Ok(format!("double: {}", x * 2)),
        };
        match r {
            Ok(v) => Ok(ClapMcpToolOutput::Text(v)),
            Err(e) => Err(ClapMcpToolError::text(&format!("{:?}", e))),
        }
    }
}

#[derive(Debug)]
struct MyError {
    code: i64,
    msg: String,
}

enum TestCliResultStructuredError {
    Check { x: i32 },
}

impl ClapMcpToolExecutor for TestCliResultStructuredError {
    fn execute_for_mcp(self) -> Result<ClapMcpToolOutput, ClapMcpToolError> {
        let r: Result<String, MyError> = match self {
            TestCliResultStructuredError::Check { x } => {
                if x > 0 {
                    Ok(format!("ok: {}", x))
                } else {
                    Err(MyError { code: -1, msg: format!("invalid: {}", x) })
                }
            }
        };
        match r {
            Ok(v) => Ok(ClapMcpToolOutput::Text(v)),
            Err(e) => {
                let mut m = serde_json::Map::new();
                m.insert("code".to_string(), serde_json::Value::from(e.code));
                m.insert("msg".to_string(), serde_json::Value::from(e.msg.clone()));
                Err(ClapMcpToolError::structured(&format!("{:?}", e), serde_json::Value::Object(m)))
            }
        }
    }
}

#[test]
fn config_tests_test_config_default() {
    let config = ClapMcpConfig::default();
    assert!(!config.reinvocation_safe, "reinvocation_safe should default to false");
    assert!(!config.parallel_safe, "parallel_safe should default to false");
    assert!(!config.share_runtime, "share_runtime should default to false");
    assert!(
        config.allow_mcp_without_subcommand,
        "allow_mcp_without_subcommand should default to true"
    );
}

#[test]
fn config_tests_test_clap_mcp_config_provider_defaults() {
    let config = TestCliDefaults::clap_mcp_config();
    assert!(!config.reinvocation_safe);
    assert!(!config.parallel_safe);
}

#[test]
fn config_tests_test_clap_mcp_config_provider_both_true() {
    let config = TestCliBothTrue::clap_mcp_config();
    assert!(config.reinvocation_safe);
    assert!(config.parallel_safe);
}

#[test]
fn config_tests_test_clap_mcp_config_provider_parallel_only() {
    let config = TestCliParallelOnly::clap_mcp_config();
    assert!(!config.reinvocation_safe);
    assert!(config.parallel_safe);
}

#[test]
fn config_tests_test_clap_mcp_config_provider_reinvoke_only() {
    let config = TestCliReinvokeOnly::clap_mcp_config();
    assert!(config.reinvocation_safe);
    assert!(!config.parallel_safe);
}

#[test]
fn test_clap_mcp_config_provider_share_runtime() {
    let config = TestCliShareRuntime::clap_mcp_config();
    assert!(config.reinvocation_safe);
    assert!(config.share_runtime);
}

#[test]
fn test_clap_mcp_config_provider_share_runtime_defaults_when_omitted() {
    let config = TestCliReinvokeOnly::clap_mcp_config();
    assert!(config.reinvocation_safe);
    assert!(!config.share_runtime, "share_runtime should default to false when omitted");
}

#[test]
fn config_tests_test_clap_mcp_runnable() {
    let result = TestCliReinvokeOnly::Qux { x: 42 }.run();
    assert_eq!(result, "result: 42");
}

#[test]
fn config_tests_test_clap_mcp_runnable_default_debug() {
    let result = TestCliDefaults::Foo.run();
    assert_eq!(result, "foo");
}

#[test]
fn config_tests_test_clap_mcp_tool_output_text() {
    let out = ClapMcpToolOutput::Text("hello".to_string());
    assert_eq!(out.as_text(), Some("hello"));
    assert!(out.as_structured().is_none());
    assert_eq!(out.into_string(), "hello");
}

#[test]
fn config_tests_test_clap_mcp_tool_output_structured() {
    let mut m = serde_json::Map::new();
    m.insert("x".to_string(), serde_json::Value::from(1));
    m.insert("y".to_string(), serde_json::Value::from(2));
    let v = serde_json::Value::Object(m);
    let out = ClapMcpToolOutput::Structured(v.clone());
    assert!(out.as_text().is_none());
    assert_eq!(out.as_structured(), Some(&v));
    let s = out.into_string();
    let parsed: serde_json::Value = serde_json::from_str(&s).expect("valid JSON");
    assert_eq!(parsed.get("x").and_then(|v| v.as_i64()), Some(1));
    assert_eq!(parsed.get("y").and_then(|v| v.as_i64()), Some(2));
}

#[test]
fn config_tests_test_logging_constants() {
    assert_eq!(PROMPT_LOGGING_GUIDE, "clap-mcp-logging-guide");
    assert!(LOG_INTERPRETATION_INSTRUCTIONS.contains("stderr"));
    assert!(LOG_INTERPRETATION_INSTRUCTIONS.contains("app"));
    assert!(LOGGING_GUIDE_CONTENT.contains("stderr"));
    assert!(LOGGING_GUIDE_CONTENT.contains("app"));
}

#[test]
fn config_tests_test_clap_mcp_tool_executor_structured() {
    let sub = TestCliStructured::Sub { a: 10, b: 3 };
    let out = sub.execute_for_mcp().expect("should succeed");
    let v = out.as_structured().expect("should be structured");
    assert_eq!(v.get("difference").and_then(|x| x.as_i64()), Some(7));
    assert_eq!(v.get("minuend").and_then(|x| x.as_i64()), Some(10));
    assert_eq!(v.get("subtrahend").and_then(|x| x.as_i64()), Some(3));
}

#[test]
fn test_clap_mcp_output_from_text() {
    let cli = TestCliOutputFrom::TextOut { x: 42 };
    let out = cli.execute_for_mcp().expect("should succeed");
    assert_eq!(out.as_text(), Some("x=42"));
}

#[test]
fn test_clap_mcp_output_from_option_some() {
    let cli = TestCliOutputFrom::OptionOut { present: true };
    let out = cli.execute_for_mcp().expect("should succeed");
    assert_eq!(out.as_text(), Some("some"));
}

#[test]
fn test_clap_mcp_output_from_option_none() {
    let cli = TestCliOutputFrom::OptionOut { present: false };
    let out = cli.execute_for_mcp().expect("should succeed");
    assert_eq!(out.as_text(), Some(""));
}

#[test]
fn test_clap_mcp_output_from_result_ok() {
    let cli = TestCliOutputFrom::ResultOk;
    let out = cli.execute_for_mcp().expect("should succeed");
    assert_eq!(out.as_text(), Some("ok"));
}

#[test]
fn test_clap_mcp_output_from_result_err() {
    let cli = TestCliOutputFrom::ResultErr;
    let err = cli.execute_for_mcp().expect_err("should fail");
    assert!(err.message.contains("fail"));
}

#[test]
fn test_clap_mcp_output_from_structured() {
    let cli = TestCliOutputFrom::StructuredOut { a: 10, b: 3 };
    let out = cli.execute_for_mcp().expect("should succeed");
    let v = out.as_structured().expect("should be structured");
    assert_eq!(v.get("difference").and_then(|x| x.as_i64()), Some(7));
}

#[test]
fn test_struct_cli_config_provider() {
    let config = TestStructCli::clap_mcp_config();
    assert!(config.reinvocation_safe);
    assert!(!config.parallel_safe);
}

#[test]
fn test_struct_cli_executor_delegates() {
    let cli = TestStructCli {
        command: TestStructCommands::Add { a: 3, b: 7 },
    };
    let out = cli.execute_for_mcp().expect("should succeed");
    assert_eq!(out.as_text(), Some("sum: 10"));
}

#[test]
fn test_struct_optional_cli_executor_some() {
    let cli = TestStructOptionalCli {
        command: Some(TestStructOptionalCommands::Done),
    };
    let out = cli.execute_for_mcp().expect("should succeed");
    assert_eq!(out.as_text(), Some("done"));
}

#[test]
fn test_struct_optional_cli_executor_none() {
    let cli = TestStructOptionalCli { command: None };
    let out = cli.execute_for_mcp().expect("should succeed");
    assert_eq!(out.as_text(), Some(""));
}

#[test]
fn test_clap_mcp_output_result_ok() {
    let cli = TestCliResult::Sqrt { n: 42 };
    let out = cli.execute_for_mcp().expect("should succeed");
    assert_eq!(out.as_text(), Some("sqrt ~42"));
}

#[test]
fn test_clap_mcp_output_result_err() {
    let cli = TestCliResult::Sqrt { n: -1 };
    let err = cli.execute_for_mcp().expect_err("should fail");
    assert!(err.message.contains("negative"));
    assert!(err.message.contains("-1"));
    assert!(err.structured.is_none());
}

#[test]
fn test_clap_mcp_output_result_double_ok() {
    let cli = TestCliResult::Double { x: 21 };
    let out = cli.execute_for_mcp().expect("should succeed");
    assert_eq!(out.as_text(), Some("double: 42"));
}

#[test]
fn test_clap_mcp_output_result_structured_error_ok() {
    let cli = TestCliResultStructuredError::Check { x: 10 };
    let out = cli.execute_for_mcp().expect("should succeed");
    assert_eq!(out.as_text(), Some("ok: 10"));
}

#[test]
fn test_clap_mcp_output_result_structured_error_err() {
    let cli = TestCliResultStructuredError::Check { x: -5 };
    let err = cli.execute_for_mcp().expect_err("should fail");
    assert!(err.message.contains("invalid: -5"));
    let structured = err.structured.expect("should have structured error");
    assert_eq!(structured.get("code").and_then(|v| v.as_i64()), Some(-1));
    assert_eq!(structured.get("msg").and_then(|v| v.as_str()), Some("invalid: -5"));
}

#[test]
fn test_output_schema_metadata_set() {
    let schema = schemars::SchemaGenerator::default().into_root_schema_for::<i32>();
    let metadata = ClapMcpSchemaMetadata {
        output_schema: serde_json::to_value(&schema).ok(),
        ..Default::default()
    };
    assert!(
        metadata.output_schema.is_some(),
        "with output-schema feature and output_type, metadata.output_schema should be set"
    );
}
