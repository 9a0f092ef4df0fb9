//! The outcome of a comparison, and the exit status derived from it.

use vstd::prelude::*;
use vstd::std_specs::convert::FromSpecImpl;

verus! {

/// The outcome of comparing a reference file with another file. Files are
/// named by their position in the caller's list of paths.
#[derive(Clone, Copy, Debug, PartialEq, Eq, Structural)]
pub enum Verdict {
    /// The files have the same length and the same bytes.
    Same,
    /// The files have different lengths.
    DifferentSize { left: usize, left_len: u64, right: usize, right_len: u64 },
    /// The files have the same length but differ in at least one byte.
    DifferentContents { left: usize, right: usize },
}

impl Verdict {
    /// Whether no difference was found.
    pub fn is_same(&self) -> (same: bool)
        ensures
            same == (*self == Verdict::Same),
    {
        match self {
            Verdict::Same => true,
            _ => false,
        }
    }
}

/// How a run ended, as reported to the calling process.
#[derive(Clone, Copy, Debug, PartialEq, Eq, Structural)]
pub enum ExitStatus {
    Same,
    Different,
    Failed,
}

impl ExitStatus {
    /// The status that a finished comparison ends with.
    pub open spec fn of(verdict: Verdict) -> ExitStatus {
        match verdict {
            Verdict::Same => ExitStatus::Same,
            _ => ExitStatus::Different,
        }
    }

    /// The process exit code: 0 for same, 1 for different, 127 for an
    /// error.
    pub open spec fn code(self) -> int {
        match self {
            ExitStatus::Same => 0,
            ExitStatus::Different => 1,
            ExitStatus::Failed => 127,
        }
    }
}

impl From<Verdict> for ExitStatus {
    fn from(verdict: Verdict) -> (status: ExitStatus) {
        match verdict {
            Verdict::Same => ExitStatus::Same,
            Verdict::DifferentSize { .. } | Verdict::DifferentContents { .. } => {
                ExitStatus::Different
            },
        }
    }
}

impl FromSpecImpl<Verdict> for ExitStatus {
    open spec fn obeys_from_spec() -> bool {
        true
    }

    open spec fn from_spec(verdict: Verdict) -> ExitStatus {
        ExitStatus::of(verdict)
    }
}

impl From<ExitStatus> for i32 {
    fn from(status: ExitStatus) -> (code: i32) {
        match status {
            ExitStatus::Same => 0,
            ExitStatus::Different => 1,
            ExitStatus::Failed => i8::MAX as i32,
        }
    }
}

impl FromSpecImpl<ExitStatus> for i32 {
    open spec fn obeys_from_spec() -> bool {
        true
    }

    open spec fn from_spec(status: ExitStatus) -> i32 {
        status.code() as i32
    }
}

} // verus!
