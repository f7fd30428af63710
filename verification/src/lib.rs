//! Call graph generation driven by a Language Server Protocol (LSP) server.
//!
//! The library holds the verified core of the tool: the graph model and the
//! bounded, cycle-safe traversal that folds call-hierarchy answers into it,
//! glob-style exclusion matching, configuration merging and validation, the
//! JSON-RPC request bookkeeping (unique ids, pending-request table, timeouts),
//! `Content-Length` framing, and DOT rendering of the finished graph.
//! Process management and the actual wire I/O live outside the library.

pub mod analyzer;
pub mod config;
pub mod glob;
pub mod lsp;
pub mod output;
pub mod text;

pub use analyzer::CallGraph;
pub use config::{CliArgs, Config};
pub use lsp::LspClient;
pub use output::DotGenerator;

use vstd::prelude::*;

verus! {

/// Errors of the call graph generator.
///
/// Structural failures (`SpawnError`, `CapabilityError`, `RootNotFoundError`)
/// abort a run; `TimeoutError` and `ProtocolError` are recovered per node or
/// per frame.
#[derive(Debug, PartialEq, Eq)]
pub enum CallGraphError {
    /// The language-server subprocess could not be started.
    SpawnError(String),
    /// A malformed or unexpected JSON-RPC frame was received.
    ProtocolError(String),
    /// The server lacks document-symbol or call-hierarchy support.
    CapabilityError(String),
    /// A single request exceeded its configured deadline.
    TimeoutError,
    /// The named root function could not be located.
    RootNotFoundError(String),
    /// A request was still outstanding when the session shut down.
    ShutdownError,
    /// A request was issued before the session handshake completed.
    NotInitializedError,
    /// Invalid configuration or command-line arguments.
    ConfigError(String),
    /// A failure while building the call graph.
    AnalysisError(String),
    /// A failure while rendering the output.
    OutputError(String),
    /// An input/output failure outside the protocol.
    IoError(String),
}

impl CallGraphError {
    /// A human-readable description; variants carrying a message return it.
    pub fn message(&self) -> (r: String)
        ensures
            self matches CallGraphError::SpawnError(m) ==> r@ == m@,
            self matches CallGraphError::ProtocolError(m) ==> r@ == m@,
            self matches CallGraphError::CapabilityError(m) ==> r@ == m@,
            self matches CallGraphError::RootNotFoundError(m) ==> r@ == m@,
            self matches CallGraphError::ConfigError(m) ==> r@ == m@,
            self matches CallGraphError::AnalysisError(m) ==> r@ == m@,
            self matches CallGraphError::OutputError(m) ==> r@ == m@,
            self matches CallGraphError::IoError(m) ==> r@ == m@,
            self is TimeoutError ==> r@ == "request timed out"@,
            self is ShutdownError ==> r@ == "session shut down with requests outstanding"@,
            self is NotInitializedError ==> r@ == "request issued before initialization"@,
    {
        match self {
            CallGraphError::SpawnError(m) => m.clone(),
            CallGraphError::ProtocolError(m) => m.clone(),
            CallGraphError::CapabilityError(m) => m.clone(),
            CallGraphError::TimeoutError => "request timed out".to_owned(),
            CallGraphError::RootNotFoundError(m) => m.clone(),
            CallGraphError::ShutdownError => "session shut down with requests outstanding".to_owned(),
            CallGraphError::NotInitializedError => "request issued before initialization".to_owned(),
            CallGraphError::ConfigError(m) => m.clone(),
            CallGraphError::AnalysisError(m) => m.clone(),
            CallGraphError::OutputError(m) => m.clone(),
            CallGraphError::IoError(m) => m.clone(),
        }
    }
}

} // verus!
