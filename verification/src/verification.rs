//! Verification results: which check ran, the state it reached and the
//! labels that qualify it.

use vstd::prelude::*;

verus! {

/// The state a check reached.
#[derive(Clone, Copy, Debug, Eq, PartialEq)]
pub enum VerificationState {
    Pass,
    Fail,
    Mismatch,
    NoEvidence,
    Unknown,
}

/// A label that qualifies a non-passing state.
#[derive(Clone, Copy, Debug, Eq, Ord, PartialEq, PartialOrd)]
pub enum DiagnosticLabel {
    Missing,
    NotChecked,
    NotExecuted,
    Stale,
}

/// The checks verification runs.
#[derive(Clone, Copy, Debug, Eq, Ord, PartialEq, PartialOrd)]
pub enum VerificationCheck {
    ChainIntegrity,
    OrphanDetection,
    TargetBinding,
    OraclePresence,
}

/// The outcome of one check.
#[derive(Clone, Debug, Eq, PartialEq)]
pub struct VerificationResult {
    pub check: VerificationCheck,
    pub state: VerificationState,
    pub diagnostic_labels: Vec<DiagnosticLabel>,
}

} // verus!
