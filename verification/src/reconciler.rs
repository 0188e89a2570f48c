//! The reconciler: the state machine of `model`, on executable values.
use crate::change::ChangeEntry;
use crate::error::{BackendFailure, ReconcileError, TargetProblem};
use crate::model::{
    apply, conclude, initial, mode_of, next, settle_baseline, transfer, validate_from,
    ActionView, EventView, MachineView, Mode, Outcome, Phase,
};
use crate::plan::{clone_paths, TransferPlan};
use crate::source::{SourceConfig, SourceKind};
use crate::text::same_text;
use vstd::prelude::*;

verus! {

/// What the driver reports to the reconciler.
#[derive(Debug, PartialEq, Eq)]
pub enum Event {
    TargetChecked { exists: bool, is_dir: bool },
    ReadinessChecked(bool),
    /// The snapshots recorded for the source, most recent first.
    HistoryListed(Vec<String>),
    ExistenceChecked(bool),
    HeadListed(Option<String>),
    RootResolved(String),
    RootReleased,
    ChangesListed { entries: Vec<ChangeEntry>, mount_root: String },
    PathsDeleted { deleted: usize, errors: usize },
    Transferred,
    Recorded,
    /// What was asked for could not be done.
    Failed(BackendFailure),
}

impl View for Event {
    type V = EventView;

    open spec fn view(&self) -> EventView {
        match self {
            Event::TargetChecked { exists, is_dir } => EventView::TargetChecked {
                exists: *exists,
                is_dir: *is_dir,
            },
            Event::ReadinessChecked(b) => EventView::ReadinessChecked(*b),
            Event::HistoryListed(h) => EventView::HistoryListed(h.deep_view()),
            Event::ExistenceChecked(b) => EventView::ExistenceChecked(*b),
            Event::HeadListed(h) => EventView::HeadListed(h.deep_view()),
            Event::RootResolved(r) => EventView::RootResolved(r@),
            Event::RootReleased => EventView::RootReleased,
            Event::ChangesListed { entries, mount_root } => EventView::ChangesListed {
                entries: entries.deep_view(),
                mount_root: mount_root@,
            },
            Event::PathsDeleted { deleted, errors } => EventView::PathsDeleted {
                deleted: *deleted,
                errors: *errors,
            },
            Event::Transferred => EventView::Transferred,
            Event::Recorded => EventView::Recorded,
            Event::Failed(f) => EventView::Failed(*f),
        }
    }
}

/// What the reconciler asks the driver to do.
#[derive(Debug, PartialEq, Eq)]
pub enum Action {
    CheckTarget,
    CheckReadiness,
    ListHistory,
    CheckExistence(String),
    ListHead,
    /// Make the snapshot readable and report its root.
    ResolveRoot(String),
    /// Give up the root that `ResolveRoot` reported.
    ReleaseRoot(String),
    ListChanges {
        baseline: String,
        head: String,
        baseline_root: Option<String>,
        head_root: String,
    },
    DeletePaths(Vec<String>),
    MirrorRoot(String),
    MirrorFileList { source_root: String, files: Vec<String> },
    Record(String),
    Finish(Outcome),
}

impl View for Action {
    type V = ActionView;

    open spec fn view(&self) -> ActionView {
        match self {
            Action::CheckTarget => ActionView::CheckTarget,
            Action::CheckReadiness => ActionView::CheckReadiness,
            Action::ListHistory => ActionView::ListHistory,
            Action::CheckExistence(s) => ActionView::CheckExistence(s@),
            Action::ListHead => ActionView::ListHead,
            Action::ResolveRoot(s) => ActionView::ResolveRoot(s@),
            Action::ReleaseRoot(r) => ActionView::ReleaseRoot(r@),
            Action::ListChanges { baseline, head, baseline_root, head_root } => {
                ActionView::ListChanges {
                    baseline: baseline@,
                    head: head@,
                    baseline_root: baseline_root.deep_view(),
                    head_root: head_root@,
                }
            },
            Action::DeletePaths(p) => ActionView::DeletePaths(p.deep_view()),
            Action::MirrorRoot(r) => ActionView::MirrorRoot(r@),
            Action::MirrorFileList { source_root, files } => ActionView::MirrorFileList {
                source_root: source_root@,
                files: files.deep_view(),
            },
            Action::Record(s) => ActionView::Record(s@),
            Action::Finish(o) => ActionView::Finish(*o),
        }
    }
}

/// The mode that a baseline and the newest snapshot call for.
pub fn determine_mode(baseline: Option<&str>, head: &str) -> (r: Mode)
    ensures
        r == mode_of(
            match baseline {
                Some(b) => Some(b@),
                None => None,
            },
            head@,
        ),
{
    match baseline {
        None => Mode::Full,
        Some(b) => if same_text(b, head) {
            Mode::Skip
        } else {
            Mode::Incremental
        },
    }
}

/// The reconciliation of one source.
pub struct Reconciler {
    source: SourceConfig,
    phase: Phase,
    history: Vec<String>,
    cursor: usize,
    baseline: Option<String>,
    head: Option<String>,
    head_root: Option<String>,
    held: Vec<String>,
    plan: Option<TransferPlan>,
    pending: Outcome,
}

impl View for Reconciler {
    type V = MachineView;

    closed spec fn view(&self) -> MachineView {
        MachineView {
            source: self.source@,
            phase: self.phase,
            history: self.history.deep_view(),
            cursor: self.cursor as nat,
            baseline: self.baseline.deep_view(),
            head: self.head.deep_view(),
            head_root: self.head_root.deep_view(),
            held: self.held.deep_view(),
            plan: match self.plan {
                Some(p) => Some(p@),
                None => None,
            },
            pending: self.pending,
        }
    }
}

impl Reconciler {
    /// Starts the reconciliation of `source`. The first thing to do is to
    /// check the target directory.
    pub fn start(source: SourceConfig) -> (r: (Reconciler, Action))
        ensures
            r.0@ == initial(source@),
            r.1@ == ActionView::CheckTarget,
    {
        let m = Reconciler {
            source,
            phase: Phase::CheckTarget,
            history: Vec::new(),
            cursor: 0,
            baseline: None,
            head: None,
            head_root: None,
            held: Vec::new(),
            plan: None,
            pending: Outcome::UpToDate,
        };
        proof {
            assert(m.history.deep_view() =~= Seq::<Seq<char>>::empty());
            assert(m.held.deep_view() =~= Seq::<Seq<char>>::empty());
        }
        (m, Action::CheckTarget)
    }

    /// The source that is reconciled.
    pub fn source(&self) -> (r: &SourceConfig)
        ensures
            r@ == self@.source,
    {
        &self.source
    }

    /// What the reconciler waits for.
    pub fn phase(&self) -> (r: Phase)
        ensures
            r == self@.phase,
    {
        self.phase
    }

    /// Whether the reconciliation has ended.
    pub fn is_done(&self) -> (r: bool)
        ensures
            r == (self@.phase == Phase::Done),
    {
        self.phase == Phase::Done
    }

    /// How the reconciliation ended, once it has.
    pub fn outcome(&self) -> (r: Option<Outcome>)
        ensures
            r == if self@.phase == Phase::Done {
                Some(self@.pending)
            } else {
                None
            },
    {
        if self.phase == Phase::Done {
            Some(self.pending)
        } else {
            None
        }
    }

    /// The last recorded snapshot that still exists, once the reconciler has
    /// found one.
    pub fn baseline(&self) -> (r: Option<&String>)
        ensures
            match r {
                Some(b) => self@.baseline == Some(b@),
                None => self@.baseline is None,
            },
    {
        self.baseline.as_ref()
    }

    /// The newest snapshot of the source, once the reconciler was told.
    pub fn head(&self) -> (r: Option<&String>)
        ensures
            match r {
                Some(h) => self@.head == Some(h@),
                None => self@.head is None,
            },
    {
        self.head.as_ref()
    }

    /// The plan, once the reconciler has made one.
    pub fn plan(&self) -> (r: Option<&TransferPlan>)
        ensures
            match r {
                Some(p) => self@.plan == Some(p@),
                None => self@.plan is None,
            },
    {
        self.plan.as_ref()
    }

    fn conclude(&mut self, outcome: Outcome) -> (a: Action)
        ensures
            (final(self)@, a@) == conclude(old(self)@, outcome),
    {
        self.pending = outcome;
        let n = self.held.len();
        if n > 0 {
            self.phase = Phase::Release;
            return Action::ReleaseRoot(self.held[n - 1].clone());
        }
        let backup = outcome == Outcome::FullBackup || outcome == Outcome::IncrementalBackup;
        if backup {
            match &self.head {
                Some(h) => {
                    let snapshot = h.clone();
                    self.phase = Phase::Record;
                    return Action::Record(snapshot);
                },
                None => {},
            }
        }
        self.phase = Phase::Done;
        Action::Finish(outcome)
    }

    fn settle_baseline(&mut self, baseline: Option<String>) -> (a: Action)
        ensures
            (final(self)@, a@) == settle_baseline(old(self)@, baseline.deep_view()),
    {
        self.phase = Phase::DetermineMode;
        self.baseline = baseline;
        Action::ListHead
    }

    fn validate_from(&mut self, cursor: usize) -> (a: Action)
        ensures
            (final(self)@, a@) == validate_from(old(self)@, cursor as nat),
    {
        if cursor < self.history.len() {
            self.phase = Phase::ValidateLastRecorded;
            self.cursor = cursor;
            Action::CheckExistence(self.history[cursor].clone())
        } else {
            self.settle_baseline(None)
        }
    }

    fn transfer(&mut self) -> (a: Action)
        requires
            old(self)@.plan is Some,
        ensures
            (final(self)@, a@) == transfer(old(self)@, old(self)@.plan->0),
    {
        let (sync_all, root, files) = match &self.plan {
            Some(plan) => (
                plan.sync_all(),
                plan.source_root().clone(),
                clone_paths(plan.sync_files()),
            ),
            None => (false, String::new(), Vec::new()),
        };
        if sync_all {
            self.phase = Phase::Transfer;
            Action::MirrorRoot(root)
        } else if files.len() > 0 {
            self.phase = Phase::Transfer;
            Action::MirrorFileList { source_root: root, files }
        } else {
            self.conclude(Outcome::IncrementalBackup)
        }
    }

    fn apply(&mut self, plan: TransferPlan) -> (a: Action)
        ensures
            (final(self)@, a@) == apply(old(self)@, plan@),
    {
        let empty = plan.is_empty();
        let deletions = clone_paths(plan.deletions());
        self.plan = Some(plan);
        if empty {
            self.conclude(Outcome::Unchanged)
        } else if deletions.len() > 0 {
            self.phase = Phase::Delete;
            Action::DeletePaths(deletions)
        } else {
            self.transfer()
        }
    }
}

/// The mathematical value of what `step` returns.
pub open spec fn asked(r: Option<Action>) -> Option<ActionView> {
    match r {
        Some(a) => Some(a@),
        None => None,
    }
}

/// Whether a machine in state `before` that is told `event` may be in state
/// `after` and ask for `action`: as `next` says, and where `next` has no
/// answer the state is unchanged and nothing is asked.
pub open spec fn answers(
    before: MachineView,
    event: EventView,
    after: MachineView,
    action: Option<ActionView>,
) -> bool {
    match next(before, event) {
        Some((s, a)) => after == s && action == Some(a),
        None => after == before && action is None,
    }
}

impl Reconciler {
    fn on_target(&mut self, event: Event) -> (r: Option<Action>)
        requires
            old(self)@.phase == Phase::CheckTarget,
        ensures
            answers(old(self)@, event@, final(self)@, asked(r)),
    {
        match event {
            Event::TargetChecked { exists, is_dir } => {
                if !exists {
                    Some(
                        self.conclude(
                            Outcome::Failed(
                                ReconcileError::TargetUnavailable(TargetProblem::Missing),
                            ),
                        ),
                    )
                } else if !is_dir {
                    Some(
                        self.conclude(
                            Outcome::Failed(
                                ReconcileError::TargetUnavailable(TargetProblem::NotADirectory),
                            ),
                        ),
                    )
                } else if self.source.kind == SourceKind::DatasetLike {
                    self.phase = Phase::CheckAvailability;
                    Some(Action::CheckReadiness)
                } else {
                    self.phase = Phase::LookupLastRecorded;
                    Some(Action::ListHistory)
                }
            },
            _ => None,
        }
    }

    fn on_readiness(&mut self, event: Event) -> (r: Option<Action>)
        requires
            old(self)@.phase == Phase::CheckAvailability,
        ensures
            answers(old(self)@, event@, final(self)@, asked(r)),
    {
        match event {
            Event::ReadinessChecked(ready) => {
                if ready {
                    self.phase = Phase::LookupLastRecorded;
                    Some(Action::ListHistory)
                } else {
                    Some(self.conclude(Outcome::Failed(ReconcileError::SourceNotReady)))
                }
            },
            Event::Failed(f) => Some(
                self.conclude(Outcome::Failed(ReconcileError::from_failure(f))),
            ),
            _ => None,
        }
    }

    fn on_history(&mut self, event: Event) -> (r: Option<Action>)
        requires
            old(self)@.phase == Phase::LookupLastRecorded,
        ensures
            answers(old(self)@, event@, final(self)@, asked(r)),
    {
        match event {
            Event::HistoryListed(history) => {
                self.history = history;
                Some(self.validate_from(0))
            },
            Event::Failed(_) => Some(self.settle_baseline(None)),
            _ => None,
        }
    }

    fn on_existence(&mut self, event: Event) -> (r: Option<Action>)
        requires
            old(self)@.phase == Phase::ValidateLastRecorded,
        ensures
            answers(old(self)@, event@, final(self)@, asked(r)),
    {
        let in_range = self.cursor < self.history.len();
        match event {
            Event::ExistenceChecked(exists) => {
                if exists && in_range {
                    let baseline = self.history[self.cursor].clone();
                    Some(self.settle_baseline(Some(baseline)))
                } else if in_range {
                    let following = self.cursor + 1;
                    Some(self.validate_from(following))
                } else {
                    Some(self.settle_baseline(None))
                }
            },
            Event::Failed(_) => {
                if in_range {
                    let following = self.cursor + 1;
                    Some(self.validate_from(following))
                } else {
                    Some(self.settle_baseline(None))
                }
            },
            _ => None,
        }
    }

    fn on_head(&mut self, event: Event) -> (r: Option<Action>)
        requires
            old(self)@.phase == Phase::DetermineMode,
        ensures
            answers(old(self)@, event@, final(self)@, asked(r)),
    {
        match event {
            Event::HeadListed(None) => Some(
                self.conclude(Outcome::Failed(ReconcileError::NoSnapshotsAvailable)),
            ),
            Event::HeadListed(Some(head)) => {
                let mode = match &self.baseline {
                    Some(b) => determine_mode(Some(b.as_str()), head.as_str()),
                    None => determine_mode(None, head.as_str()),
                };
                if mode == Mode::Skip {
                    self.phase = Phase::Done;
                    self.head = Some(head);
                    self.pending = Outcome::UpToDate;
                    Some(Action::Finish(Outcome::UpToDate))
                } else {
                    let snapshot = head.clone();
                    self.phase = Phase::ResolveHead;
                    self.head = Some(head);
                    Some(Action::ResolveRoot(snapshot))
                }
            },
            Event::Failed(f) => Some(
                self.conclude(Outcome::Failed(ReconcileError::from_failure(f))),
            ),
            _ => None,
        }
    }
}

impl Reconciler {
    fn on_head_root(&mut self, event: Event) -> (r: Option<Action>)
        requires
            old(self)@.phase == Phase::ResolveHead,
        ensures
            answers(old(self)@, event@, final(self)@, asked(r)),
    {
        match event {
            Event::RootResolved(root) => {
                let release = self.source.kind == SourceKind::ContentRepo;
                let ghost held = self.held.deep_view();
                if release {
                    self.held.push(root.clone());
                    proof {
                        assert(self.held.deep_view() =~= held.push(root@));
                    }
                }
                self.head_root = Some(root.clone());
                let names = match (&self.baseline, &self.head) {
                    (Some(b), Some(h)) => Some((b.clone(), h.clone())),
                    _ => None,
                };
                match names {
                    Some((baseline, head)) => {
                        if release {
                            self.phase = Phase::ResolveBaseline;
                            Some(Action::ResolveRoot(baseline))
                        } else {
                            self.phase = Phase::ListChanges;
                            Some(
                                Action::ListChanges {
                                    baseline,
                                    head,
                                    baseline_root: None,
                                    head_root: root,
                                },
                            )
                        }
                    },
                    None => Some(self.apply(TransferPlan::full(root))),
                }
            },
            Event::Failed(f) => Some(
                self.conclude(Outcome::Failed(ReconcileError::from_failure(f))),
            ),
            _ => None,
        }
    }

    fn on_baseline_root(&mut self, event: Event) -> (r: Option<Action>)
        requires
            old(self)@.phase == Phase::ResolveBaseline,
        ensures
            answers(old(self)@, event@, final(self)@, asked(r)),
    {
        match event {
            Event::RootResolved(root) => {
                let names = match (&self.baseline, &self.head, &self.head_root) {
                    (Some(b), Some(h), Some(hr)) => Some((b.clone(), h.clone(), hr.clone())),
                    _ => None,
                };
                match names {
                    Some((baseline, head, head_root)) => {
                        let ghost held = self.held.deep_view();
                        self.held.push(root.clone());
                        proof {
                            assert(self.held.deep_view() =~= held.push(root@));
                        }
                        self.phase = Phase::ListChanges;
                        Some(
                            Action::ListChanges {
                                baseline,
                                head,
                                baseline_root: Some(root),
                                head_root,
                            },
                        )
                    },
                    None => None,
                }
            },
            Event::Failed(f) => Some(
                self.conclude(Outcome::Failed(ReconcileError::from_failure(f))),
            ),
            _ => None,
        }
    }

    fn on_changes(&mut self, event: Event) -> (r: Option<Action>)
        requires
            old(self)@.phase == Phase::ListChanges,
        ensures
            answers(old(self)@, event@, final(self)@, asked(r)),
    {
        match event {
            Event::ChangesListed { entries, mount_root } => {
                let source_root = match &self.head_root {
                    Some(hr) => Some(hr.clone()),
                    None => None,
                };
                match source_root {
                    Some(root) => {
                        let plan = TransferPlan::incremental(
                            entries.as_slice(),
                            mount_root.as_str(),
                            root,
                        );
                        Some(self.apply(plan))
                    },
                    None => None,
                }
            },
            Event::Failed(f) => Some(
                self.conclude(Outcome::Failed(ReconcileError::from_failure(f))),
            ),
            _ => None,
        }
    }

    fn on_deleted(&mut self, event: Event) -> (r: Option<Action>)
        requires
            old(self)@.phase == Phase::Delete,
        ensures
            answers(old(self)@, event@, final(self)@, asked(r)),
    {
        match event {
            Event::PathsDeleted { deleted, errors } => {
                if self.plan.is_none() {
                    None
                } else if errors > 0 {
                    Some(
                        self.conclude(
                            Outcome::Failed(ReconcileError::PartialDeleteFailure(errors)),
                        ),
                    )
                } else {
                    Some(self.transfer())
                }
            },
            Event::Failed(f) => Some(
                self.conclude(Outcome::Failed(ReconcileError::from_failure(f))),
            ),
            _ => None,
        }
    }

    fn on_transferred(&mut self, event: Event) -> (r: Option<Action>)
        requires
            old(self)@.phase == Phase::Transfer,
        ensures
            answers(old(self)@, event@, final(self)@, asked(r)),
    {
        match event {
            Event::Transferred => {
                let full = match &self.plan {
                    Some(plan) => Some(plan.sync_all()),
                    None => None,
                };
                match full {
                    Some(true) => Some(self.conclude(Outcome::FullBackup)),
                    Some(false) => Some(self.conclude(Outcome::IncrementalBackup)),
                    None => None,
                }
            },
            Event::Failed(f) => Some(
                self.conclude(Outcome::Failed(ReconcileError::from_failure(f))),
            ),
            _ => None,
        }
    }

    fn on_released(&mut self, event: Event) -> (r: Option<Action>)
        requires
            old(self)@.phase == Phase::Release,
        ensures
            answers(old(self)@, event@, final(self)@, asked(r)),
    {
        match event {
            Event::RootReleased | Event::Failed(_) => {
                if self.held.len() > 0 {
                    let ghost held = self.held.deep_view();
                    self.held.pop();
                    proof {
                        assert(self.held.deep_view() =~= held.drop_last());
                    }
                    let outcome = self.pending;
                    Some(self.conclude(outcome))
                } else {
                    None
                }
            },
            _ => None,
        }
    }

    fn on_recorded(&mut self, event: Event) -> (r: Option<Action>)
        requires
            old(self)@.phase == Phase::Record,
        ensures
            answers(old(self)@, event@, final(self)@, asked(r)),
    {
        match event {
            Event::Recorded => {
                self.phase = Phase::Done;
                Some(Action::Finish(self.pending))
            },
            Event::Failed(f) => {
                let outcome = Outcome::Failed(ReconcileError::from_failure(f));
                self.phase = Phase::Done;
                self.pending = outcome;
                Some(Action::Finish(outcome))
            },
            _ => None,
        }
    }

    /// Tells the reconciler what came of the action it asked for, and returns
    /// what it asks for next. An event that it does not wait for changes
    /// nothing and is answered with `None`.
    pub fn step(&mut self, event: Event) -> (r: Option<Action>)
        ensures
            answers(old(self)@, event@, final(self)@, asked(r)),
    {
        match self.phase {
            Phase::CheckTarget => self.on_target(event),
            Phase::CheckAvailability => self.on_readiness(event),
            Phase::LookupLastRecorded => self.on_history(event),
            Phase::ValidateLastRecorded => self.on_existence(event),
            Phase::DetermineMode => self.on_head(event),
            Phase::ResolveHead => self.on_head_root(event),
            Phase::ResolveBaseline => self.on_baseline_root(event),
            Phase::ListChanges => self.on_changes(event),
            Phase::Delete => self.on_deleted(event),
            Phase::Transfer => self.on_transferred(event),
            Phase::Release => self.on_released(event),
            Phase::Record => self.on_recorded(event),
            Phase::Done => None,
        }
    }
}

} // verus!
