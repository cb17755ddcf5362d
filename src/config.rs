//! Execution safety configuration and the decisions that follow from it: whether
//! calls are serialized, and which event loop hosts asynchronous tool bodies.

use vstd::prelude::*;

verus! {

/// How a program may be invoked as a tool, declared once per program.
#[derive(Debug, Clone, Copy, PartialEq, Eq, Structural)]
pub struct ClapMcpConfig {
    /// Business logic may run repeatedly in one process; calls run in-process.
    /// When false, each call spawns a fresh subprocess.
    pub reinvocation_safe: bool,
    /// Calls may overlap. When false, calls are serialized.
    pub parallel_safe: bool,
    /// In-process asynchronous tool bodies run on the server's own event loop.
    pub share_runtime: bool,
    /// In-process faults become error results instead of stopping the server.
    pub catch_in_process_panics: bool,
    /// Server mode may start from argv before the usual subcommand check.
    pub allow_mcp_without_subcommand: bool,
}

impl Default for ClapMcpConfig {
    /// Subprocess per call, serialized, dedicated event loops, faults not caught.
    fn default() -> (r: Self)
        ensures
            !r.reinvocation_safe,
            !r.parallel_safe,
            !r.share_runtime,
            !r.catch_in_process_panics,
            r.allow_mcp_without_subcommand,
    {
        ClapMcpConfig {
            reinvocation_safe: false,
            parallel_safe: false,
            share_runtime: false,
            catch_in_process_panics: false,
            allow_mcp_without_subcommand: true,
        }
    }
}

/// Gives the execution configuration that a program declares for itself.
pub trait ClapMcpConfigProvider {
    fn clap_mcp_config() -> ClapMcpConfig;
}

/// Where an asynchronous tool body runs.
#[derive(Debug, Clone, Copy, PartialEq, Eq, Structural)]
pub enum AsyncRuntime {
    /// A fresh single-threaded event loop on a fresh thread, joined after the call.
    Dedicated,
    /// The server's own, already running, multi-threaded event loop.
    Shared,
}

/// The kind of event loop that a server runs on.
#[derive(Debug, Clone, Copy, PartialEq, Eq, Structural)]
pub enum LoopKind {
    CurrentThread,
    MultiThread,
}

/// Why an asynchronous tool body cannot run on the shared event loop.
#[derive(Debug, Clone, Copy, PartialEq, Eq, Structural)]
pub enum RuntimeError {
    /// No event loop is running on the calling thread.
    NoActiveLoop,
    /// The running event loop is single-threaded; waiting on it would deadlock.
    SingleThreadLoop,
}

pub open spec fn shares_runtime(c: ClapMcpConfig) -> bool {
    c.reinvocation_safe && c.share_runtime
}

impl ClapMcpConfig {
    /// Whether calls must hold the shared exclusive lock.
    pub fn uses_execution_lock(&self) -> (r: bool)
        ensures
            r == !self.parallel_safe,
    {
        !self.parallel_safe
    }

    /// The event loop the server itself runs on: multi-threaded exactly when
    /// in-process tool bodies share it.
    pub fn server_loop_kind(&self) -> (r: LoopKind)
        ensures
            r == (if shares_runtime(*self) { LoopKind::MultiThread } else { LoopKind::CurrentThread }),
    {
        if self.reinvocation_safe && self.share_runtime {
            LoopKind::MultiThread
        } else {
            LoopKind::CurrentThread
        }
    }
}

/// Chooses where an asynchronous tool body runs, given the event loop (if any) that
/// runs the calling thread. Without both `reinvocation_safe` and `share_runtime` it
/// is always a fresh loop, whatever is running; with both it is the running loop,
/// which must be multi-threaded, and otherwise an error at once.
pub fn select_async_runtime(config: &ClapMcpConfig, active: Option<LoopKind>) -> (r: Result<AsyncRuntime, RuntimeError>)
    ensures
        !shares_runtime(*config) ==> r == Ok::<AsyncRuntime, RuntimeError>(AsyncRuntime::Dedicated),
        shares_runtime(*config) ==> r == match active {
            Some(LoopKind::MultiThread) => Ok::<AsyncRuntime, RuntimeError>(AsyncRuntime::Shared),
            Some(LoopKind::CurrentThread) => Err(RuntimeError::SingleThreadLoop),
            None => Err(RuntimeError::NoActiveLoop),
        },
{
    if !(config.reinvocation_safe && config.share_runtime) {
        return Ok(AsyncRuntime::Dedicated);
    }
    match active {
        Some(LoopKind::MultiThread) => Ok(AsyncRuntime::Shared),
        Some(LoopKind::CurrentThread) => Err(RuntimeError::SingleThreadLoop),
        None => Err(RuntimeError::NoActiveLoop),
    }
}

} // verus!
