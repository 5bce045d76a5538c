//! The JSON envelope every command answers with, process exit codes and
//! the scan summary.

use vstd::prelude::*;

use crate::diagnostic::Diagnostic;

verus! {

/// The top-level shape of every machine-readable answer.
#[derive(Clone, Debug, Eq, PartialEq)]
pub struct JsonEnvelope<T> {
    pub ok: bool,
    pub data: T,
    pub diagnostics: Vec<Diagnostic>,
}

impl<T> JsonEnvelope<T> {
    /// An envelope holding exactly the given parts.
    pub fn new(ok: bool, data: T, diagnostics: Vec<Diagnostic>) -> (e: JsonEnvelope<T>)
        ensures
            e.ok == ok,
            e.data == data,
            e.diagnostics == diagnostics,
    {
        JsonEnvelope { ok, data, diagnostics }
    }
}

/// The process exit status of a command.
#[derive(Clone, Copy, Debug, Eq, PartialEq)]
pub enum ExitCode {
    Success,
    VerificationFailed,
    Usage,
    Internal,
}

/// The numeric status of each exit code.
pub open spec fn exit_status(code: ExitCode) -> u8 {
    match code {
        ExitCode::Success => 0,
        ExitCode::VerificationFailed => 1,
        ExitCode::Usage => 2,
        ExitCode::Internal => 3,
    }
}

impl ExitCode {
    /// The numeric process status.
    pub fn as_u8(self) -> (n: u8)
        ensures
            n == exit_status(self),
    {
        match self {
            ExitCode::Success => 0,
            ExitCode::VerificationFailed => 1,
            ExitCode::Usage => 2,
            ExitCode::Internal => 3,
        }
    }
}

/// How many files, tests and source targets a scan saw.
#[derive(Clone, Debug, Eq, PartialEq)]
pub struct ScanSummary {
    pub files: u64,
    pub tests: u64,
    pub sources: u64,
}

} // verus!
