//! The reconciliation of one source as a state machine over mathematical
//! values.
//!
//! The machine asks for one thing at a time (an `ActionView`) and is told what
//! came of it (an `EventView`). `next` says how it answers. It never acts
//! itself: whoever drives it performs each action and reports back.
use crate::change::ChangeEntryView;
use crate::error::{error_of, BackendFailure, ReconcileError, TargetProblem};
use crate::plan::{full_plan, incremental_plan, TransferPlanView};
use crate::source::{SourceConfigView, SourceKind};
use vstd::prelude::*;

verus! {

/// How a source is brought up to date.
#[derive(Clone, Copy, PartialEq, Eq, Debug, Structural)]
pub enum Mode {
    /// Mirror the whole newest snapshot.
    Full,
    /// The newest snapshot is mirrored already.
    Skip,
    /// Transfer what changed since the baseline.
    Incremental,
}

/// How the reconciliation of one source ended.
#[derive(Clone, Copy, PartialEq, Eq, Debug, Structural)]
pub enum Outcome {
    /// The newest snapshot was the baseline. Nothing was transferred or
    /// recorded.
    UpToDate,
    /// Nothing that matters changed since the baseline. Nothing was
    /// transferred or recorded.
    Unchanged,
    /// The newest snapshot was mirrored in full and recorded.
    FullBackup,
    /// The changes since the baseline were transferred and the newest
    /// snapshot recorded.
    IncrementalBackup,
    Failed(ReconcileError),
}

impl Outcome {
    /// Whether the outcome is a transfer that went through.
    pub open spec fn is_backup(self) -> bool {
        self == Outcome::FullBackup || self == Outcome::IncrementalBackup
    }
}

/// What the machine waits for.
#[derive(Clone, Copy, PartialEq, Eq, Debug, Structural)]
pub enum Phase {
    /// The state of the target directory.
    CheckTarget,
    /// Whether the source is ready.
    CheckAvailability,
    /// The snapshots recorded for the source.
    LookupLastRecorded,
    /// Whether one recorded snapshot still exists.
    ValidateLastRecorded,
    /// The newest snapshot.
    DetermineMode,
    /// A readable root of the newest snapshot.
    ResolveHead,
    /// A readable root of the baseline.
    ResolveBaseline,
    /// The changes between the baseline and the newest snapshot.
    ListChanges,
    /// The removal of the plan's deletions.
    Delete,
    /// The transfer.
    Transfer,
    /// The release of a root.
    Release,
    /// The recording of the newest snapshot.
    Record,
    /// Nothing: the reconciliation has ended.
    Done,
}

/// The mode that a baseline and the newest snapshot call for.
pub open spec fn mode_of(baseline: Option<Seq<char>>, head: Seq<char>) -> Mode {
    match baseline {
        None => Mode::Full,
        Some(b) => if b == head {
            Mode::Skip
        } else {
            Mode::Incremental
        },
    }
}

/// What the driver reports.
pub enum EventView {
    TargetChecked { exists: bool, is_dir: bool },
    ReadinessChecked(bool),
    /// The snapshots recorded for the source, most recent first.
    HistoryListed(Seq<Seq<char>>),
    ExistenceChecked(bool),
    HeadListed(Option<Seq<char>>),
    RootResolved(Seq<char>),
    RootReleased,
    ChangesListed { entries: Seq<ChangeEntryView>, mount_root: Seq<char> },
    PathsDeleted { deleted: usize, errors: usize },
    Transferred,
    Recorded,
    /// What was asked for could not be done.
    Failed(BackendFailure),
}

/// What the machine asks the driver to do.
pub enum ActionView {
    CheckTarget,
    CheckReadiness,
    ListHistory,
    CheckExistence(Seq<char>),
    ListHead,
    /// Make the snapshot readable and report its root.
    ResolveRoot(Seq<char>),
    /// Give up the root that `ResolveRoot` reported.
    ReleaseRoot(Seq<char>),
    ListChanges {
        baseline: Seq<char>,
        head: Seq<char>,
        baseline_root: Option<Seq<char>>,
        head_root: Seq<char>,
    },
    DeletePaths(Seq<Seq<char>>),
    MirrorRoot(Seq<char>),
    MirrorFileList { source_root: Seq<char>, files: Seq<Seq<char>> },
    Record(Seq<char>),
    Finish(Outcome),
}

/// The state of the machine.
pub struct MachineView {
    pub source: SourceConfigView,
    pub phase: Phase,
    /// The recorded snapshots, most recent first.
    pub history: Seq<Seq<char>>,
    /// Which recorded snapshot is being validated.
    pub cursor: nat,
    pub baseline: Option<Seq<char>>,
    pub head: Option<Seq<char>>,
    pub head_root: Option<Seq<char>>,
    /// The roots that have to be released, in the order they were resolved.
    pub held: Seq<Seq<char>>,
    pub plan: Option<TransferPlanView>,
    /// How the reconciliation ends once the roots are released and the
    /// snapshot is recorded.
    pub pending: Outcome,
}

/// The state in which the reconciliation of `source` starts. The first action
/// is `CheckTarget`.
pub open spec fn initial(source: SourceConfigView) -> MachineView {
    MachineView {
        source,
        phase: Phase::CheckTarget,
        history: Seq::empty(),
        cursor: 0,
        baseline: None,
        head: None,
        head_root: None,
        held: Seq::empty(),
        plan: None,
        pending: Outcome::UpToDate,
    }
}

/// Whether roots of this kind of source have to be released.
pub open spec fn needs_release(kind: SourceKind) -> bool {
    kind == SourceKind::ContentRepo
}

/// Ends the reconciliation with `outcome`: first every held root is released,
/// then a backup is recorded, then the outcome is reported.
pub open spec fn conclude(s: MachineView, outcome: Outcome) -> (MachineView, ActionView) {
    if s.held.len() > 0 {
        (
            MachineView { phase: Phase::Release, pending: outcome, ..s },
            ActionView::ReleaseRoot(s.held.last()),
        )
    } else if outcome.is_backup() && s.head is Some {
        (
            MachineView { phase: Phase::Record, pending: outcome, ..s },
            ActionView::Record(s.head->0),
        )
    } else {
        (MachineView { phase: Phase::Done, pending: outcome, ..s }, ActionView::Finish(outcome))
    }
}

/// Ends the reconciliation with a failure.
pub open spec fn fail(s: MachineView, e: ReconcileError) -> (MachineView, ActionView) {
    conclude(s, Outcome::Failed(e))
}

/// Goes on to ask for the newest snapshot, with `baseline` settled.
pub open spec fn settle_baseline(s: MachineView, baseline: Option<Seq<char>>) -> (
    MachineView,
    ActionView,
) {
    (MachineView { phase: Phase::DetermineMode, baseline, ..s }, ActionView::ListHead)
}

/// Asks about the recorded snapshot at `cursor`, or settles on no baseline
/// where the records are exhausted.
pub open spec fn validate_from(s: MachineView, cursor: nat) -> (MachineView, ActionView) {
    if cursor < s.history.len() {
        (
            MachineView { phase: Phase::ValidateLastRecorded, cursor, ..s },
            ActionView::CheckExistence(s.history[cursor as int]),
        )
    } else {
        settle_baseline(s, None)
    }
}

/// Starts to apply `plan`: deletions first, then the transfer.
pub open spec fn apply(s: MachineView, plan: TransferPlanView) -> (MachineView, ActionView) {
    let s1 = MachineView { plan: Some(plan), ..s };
    if plan.is_empty() {
        conclude(s1, Outcome::Unchanged)
    } else if plan.deletions.len() > 0 {
        (MachineView { phase: Phase::Delete, ..s1 }, ActionView::DeletePaths(plan.deletions))
    } else {
        transfer(s1, plan)
    }
}

/// Asks for the transfer of `plan`, or ends where nothing is to be copied.
pub open spec fn transfer(s: MachineView, plan: TransferPlanView) -> (MachineView, ActionView) {
    if plan.sync_all {
        (MachineView { phase: Phase::Transfer, ..s }, ActionView::MirrorRoot(plan.source_root))
    } else if plan.sync_files.len() > 0 {
        (
            MachineView { phase: Phase::Transfer, ..s },
            ActionView::MirrorFileList { source_root: plan.source_root, files: plan.sync_files },
        )
    } else {
        conclude(s, Outcome::IncrementalBackup)
    }
}

/// The state with `root` noted as the root of the newest snapshot.
pub open spec fn with_head_root(s: MachineView, root: Seq<char>) -> MachineView {
    MachineView {
        head_root: Some(root),
        held: if needs_release(s.source.kind) {
            s.held.push(root)
        } else {
            s.held
        },
        ..s
    }
}

/// How the machine answers an event: its next state and what it asks for
/// next. `None` where the event is not one that the machine waits for; the
/// state then stays as it is.
pub open spec fn next(s: MachineView, e: EventView) -> Option<(MachineView, ActionView)> {
    match s.phase {
        Phase::CheckTarget => match e {
            EventView::TargetChecked { exists, is_dir } => Some(
                if !exists {
                    fail(s, ReconcileError::TargetUnavailable(TargetProblem::Missing))
                } else if !is_dir {
                    fail(s, ReconcileError::TargetUnavailable(TargetProblem::NotADirectory))
                } else if s.source.kind == SourceKind::DatasetLike {
                    (
                        MachineView { phase: Phase::CheckAvailability, ..s },
                        ActionView::CheckReadiness,
                    )
                } else {
                    (
                        MachineView { phase: Phase::LookupLastRecorded, ..s },
                        ActionView::ListHistory,
                    )
                },
            ),
            _ => None,
        },
        Phase::CheckAvailability => match e {
            EventView::ReadinessChecked(ready) => Some(
                if ready {
                    (
                        MachineView { phase: Phase::LookupLastRecorded, ..s },
                        ActionView::ListHistory,
                    )
                } else {
                    fail(s, ReconcileError::SourceNotReady)
                },
            ),
            EventView::Failed(f) => Some(fail(s, error_of(f))),
            _ => None,
        },
        Phase::LookupLastRecorded => match e {
            EventView::HistoryListed(history) => Some(
                validate_from(MachineView { history, ..s }, 0),
            ),
            EventView::Failed(_) => Some(settle_baseline(s, None)),
            _ => None,
        },
        Phase::ValidateLastRecorded => match e {
            EventView::ExistenceChecked(exists) => Some(
                if exists && s.cursor < s.history.len() {
                    settle_baseline(s, Some(s.history[s.cursor as int]))
                } else {
                    validate_from(s, s.cursor + 1)
                },
            ),
            EventView::Failed(_) => Some(validate_from(s, s.cursor + 1)),
            _ => None,
        },
        Phase::DetermineMode => match e {
            EventView::HeadListed(None) => Some(fail(s, ReconcileError::NoSnapshotsAvailable)),
            EventView::HeadListed(Some(head)) => Some(
                if mode_of(s.baseline, head) == Mode::Skip {
                    (
                        MachineView {
                            phase: Phase::Done,
                            head: Some(head),
                            pending: Outcome::UpToDate,
                            ..s
                        },
                        ActionView::Finish(Outcome::UpToDate),
                    )
                } else {
                    (
                        MachineView { phase: Phase::ResolveHead, head: Some(head), ..s },
                        ActionView::ResolveRoot(head),
                    )
                },
            ),
            EventView::Failed(f) => Some(fail(s, error_of(f))),
            _ => None,
        },
        Phase::ResolveHead => match e {
            EventView::RootResolved(root) => {
                let s1 = with_head_root(s, root);
                match (s.baseline, s.head) {
                    (Some(baseline), Some(head)) => Some(
                        if needs_release(s.source.kind) {
                            (
                                MachineView { phase: Phase::ResolveBaseline, ..s1 },
                                ActionView::ResolveRoot(baseline),
                            )
                        } else {
                            (
                                MachineView { phase: Phase::ListChanges, ..s1 },
                                ActionView::ListChanges {
                                    baseline,
                                    head,
                                    baseline_root: None,
                                    head_root: root,
                                },
                            )
                        },
                    ),
                    _ => Some(apply(s1, full_plan(root))),
                }
            },
            EventView::Failed(f) => Some(fail(s, error_of(f))),
            _ => None,
        },
        Phase::ResolveBaseline => match e {
            EventView::RootResolved(root) => match (s.baseline, s.head, s.head_root) {
                (Some(baseline), Some(head), Some(head_root)) => Some(
                    (
                        MachineView { phase: Phase::ListChanges, held: s.held.push(root), ..s },
                        ActionView::ListChanges {
                            baseline,
                            head,
                            baseline_root: Some(root),
                            head_root,
                        },
                    ),
                ),
                _ => None,
            },
            EventView::Failed(f) => Some(fail(s, error_of(f))),
            _ => None,
        },
        Phase::ListChanges => match e {
            EventView::ChangesListed { entries, mount_root } => match s.head_root {
                Some(head_root) => Some(
                    apply(s, incremental_plan(entries, mount_root, head_root)),
                ),
                None => None,
            },
            EventView::Failed(f) => Some(fail(s, error_of(f))),
            _ => None,
        },
        Phase::Delete => match e {
            EventView::PathsDeleted { deleted, errors } => match s.plan {
                Some(plan) => Some(
                    if errors > 0 {
                        fail(s, ReconcileError::PartialDeleteFailure(errors))
                    } else {
                        transfer(s, plan)
                    },
                ),
                None => None,
            },
            EventView::Failed(f) => Some(fail(s, error_of(f))),
            _ => None,
        },
        Phase::Transfer => match e {
            EventView::Transferred => match s.plan {
                Some(plan) => Some(
                    conclude(
                        s,
                        if plan.sync_all {
                            Outcome::FullBackup
                        } else {
                            Outcome::IncrementalBackup
                        },
                    ),
                ),
                None => None,
            },
            EventView::Failed(f) => Some(fail(s, error_of(f))),
            _ => None,
        },
        Phase::Release => match e {
            EventView::RootReleased | EventView::Failed(_) => if s.held.len() > 0 {
                Some(conclude(MachineView { held: s.held.drop_last(), ..s }, s.pending))
            } else {
                None
            },
            _ => None,
        },
        Phase::Record => match e {
            EventView::Recorded => Some(
                (MachineView { phase: Phase::Done, ..s }, ActionView::Finish(s.pending)),
            ),
            EventView::Failed(f) => Some(
                (
                    MachineView { phase: Phase::Done, pending: Outcome::Failed(error_of(f)), ..s },
                    ActionView::Finish(Outcome::Failed(error_of(f))),
                ),
            ),
            _ => None,
        },
        Phase::Done => None,
    }
}

} // verus!
