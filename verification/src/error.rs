//! Why a reconciliation fails.
use vstd::prelude::*;

verus! {

/// What is wrong with a target directory.
#[derive(Clone, Copy, PartialEq, Eq, Debug, Structural)]
pub enum TargetProblem {
    /// Nothing exists at the path.
    Missing,
    /// Something exists at the path and it is not a directory.
    NotADirectory,
}

/// How a call to a backend, to the transfer program or to the history store
/// failed.
#[derive(Clone, Copy, PartialEq, Eq, Debug, Structural)]
pub enum BackendFailure {
    /// The tool could not be run at all.
    Transport,
    /// The tool ran and reported a failure.
    Logic,
    /// A mounted view did not become ready in time.
    MountTimeout,
}

/// Why the reconciliation of one source failed.
#[derive(Clone, Copy, PartialEq, Eq, Debug, Structural)]
pub enum ReconcileError {
    TargetUnavailable(TargetProblem),
    SourceNotReady,
    NoSnapshotsAvailable,
    BackendTransportError,
    BackendLogicError,
    /// So many paths could not be removed from the target.
    PartialDeleteFailure(usize),
    MountTimeout,
}

/// The error that a failed call stands for.
pub open spec fn error_of(f: BackendFailure) -> ReconcileError {
    match f {
        BackendFailure::Transport => ReconcileError::BackendTransportError,
        BackendFailure::Logic => ReconcileError::BackendLogicError,
        BackendFailure::MountTimeout => ReconcileError::MountTimeout,
    }
}

impl ReconcileError {
    /// The error that a failed call stands for.
    pub fn from_failure(f: BackendFailure) -> (r: ReconcileError)
        ensures
            r == error_of(f),
    {
        match f {
            BackendFailure::Transport => ReconcileError::BackendTransportError,
            BackendFailure::Logic => ReconcileError::BackendLogicError,
            BackendFailure::MountTimeout => ReconcileError::MountTimeout,
        }
    }
}

} // verus!
