//! Evidence records: the outcome of one test execution and what it was
//! executed against.

use vstd::prelude::*;

use crate::hash::ContentHash;
use crate::ids::{AdapterId, TestId};

verus! {

/// The source revision an execution ran against.
#[derive(Clone, Debug, Eq, PartialEq)]
pub struct Revision {
    pub commit: Option<String>,
    pub dirty: bool,
}

/// The hashes of the test and its targets at execution time.
#[derive(Clone, Debug, Eq, PartialEq)]
pub struct EvidenceHashes {
    pub test_fn: ContentHash,
    pub target_fn: ContentHash,
    pub target_fns: Vec<ContentHash>,
}

/// The runner that produced the evidence.
#[derive(Clone, Debug, Eq, PartialEq)]
pub struct RunnerInfo {
    pub kind: String,
    pub command: String,
    pub exit_code: i32,
}

/// Whether the targets were observed to be exercised.
#[derive(Clone, Copy, Debug, Eq, PartialEq)]
pub enum TargetCoverageResult {
    Pass,
    Fail,
    Unknown,
}

/// How target coverage was checked and what it found.
#[derive(Clone, Debug, Eq, PartialEq)]
pub struct TargetCoverage {
    pub checked: bool,
    pub method: Option<String>,
    pub result: TargetCoverageResult,
    pub count: Option<u64>,
}

/// The outcome of a test execution.
#[derive(Clone, Copy, Debug, Eq, PartialEq)]
pub enum TestResult {
    Pass,
    Fail,
}

/// The execution state an evidence record was captured in.
#[derive(Clone, Debug, Eq, PartialEq)]
pub struct ExecutionState {
    pub schema: String,
    pub complete: bool,
    pub hash: Option<ContentHash>,
}

/// One recorded test execution.
#[derive(Clone, Debug, Eq, PartialEq)]
pub struct EvidenceRecord {
    pub id: String,
    pub test_id: TestId,
    pub adapter: AdapterId,
    pub result: TestResult,
    pub executed_at: String,
    pub revision: Revision,
    pub execution_state: ExecutionState,
    pub hashes: EvidenceHashes,
    pub runner: RunnerInfo,
    pub target_coverage: TargetCoverage,
    pub log_ref: String,
}

} // verus!
