//! The snapshot oracle: what the answers of the backends' tools mean to the
//! reconciler.
//!
//! The caller runs a tool and hands over what came of it: nothing where the
//! tool could not be run at all, else whether it succeeded and what it
//! printed. A tool that could not be run is a transport failure. A tool that
//! ran and found nothing is an answer, not a failure.
use crate::change::{parse_changes, parsed_changes};
use crate::dataset::{
    get_dataset_mountpoint, get_latest_snapshot, get_snapshot_diff, get_snapshot_mountpoint,
    is_dataset_mounted, latest_listed, says_mounted, snapshot_parts, snapshot_root,
};
use crate::error::BackendFailure;
use crate::history::{newest_first, snapshot_ids, History};
use crate::model::EventView;
use crate::reconciler::Event;
use crate::repo::{
    get_latest_restic_snapshot, get_restic_diff_via_rsync, latest_in_repository,
    listed_as_existing, repo_snapshot_exists, synthesized_changes,
};
use crate::source::{SourceConfig, SourceKind};
use crate::text::{nonempty_lines, trimmed};
use crate::transfer::{count_of, delete_files_from_target};
use vstd::prelude::*;

verus! {

/// What came of one run of a tool.
#[derive(Debug, PartialEq, Eq)]
pub struct ToolOutput {
    /// Whether the tool reported success.
    pub success: bool,
    pub stdout: String,
    pub stderr: String,
}

/// The mathematical value of a `ToolOutput`.
pub struct ToolOutputView {
    pub success: bool,
    pub stdout: Seq<char>,
    pub stderr: Seq<char>,
}

impl View for ToolOutput {
    type V = ToolOutputView;

    open spec fn view(&self) -> ToolOutputView {
        ToolOutputView { success: self.success, stdout: self.stdout@, stderr: self.stderr@ }
    }
}

/// The mathematical value of what a caller hands over.
pub open spec fn ran(run: Option<&ToolOutput>) -> Option<ToolOutputView> {
    match run {
        Some(o) => Some(o@),
        None => None,
    }
}

/// What a query for the `mounted` property of a dataset means.
pub open spec fn readiness_of(run: Option<ToolOutputView>) -> EventView {
    match run {
        None => EventView::Failed(BackendFailure::Transport),
        Some(o) => if o.success {
            EventView::ReadinessChecked(says_mounted(o.stdout))
        } else {
            EventView::Failed(BackendFailure::Logic)
        },
    }
}

/// Whether a listing of one snapshot says that it exists.
pub open spec fn exists_by(kind: SourceKind, o: ToolOutputView) -> bool {
    match kind {
        SourceKind::DatasetLike => o.success,
        SourceKind::ContentRepo => listed_as_existing(o.success, o.stdout, o.stderr),
    }
}

/// What a listing of one snapshot means. A tool that ran always gives an
/// answer: failure to list is the answer that the snapshot does not exist.
pub open spec fn existence_of(kind: SourceKind, run: Option<ToolOutputView>) -> EventView {
    match run {
        None => EventView::Failed(BackendFailure::Transport),
        Some(o) => EventView::ExistenceChecked(exists_by(kind, o)),
    }
}

/// What a listing of the newest snapshot means.
pub open spec fn head_of(kind: SourceKind, run: Option<ToolOutputView>) -> EventView {
    match run {
        None => EventView::Failed(BackendFailure::Transport),
        Some(o) => match kind {
            SourceKind::DatasetLike => if o.success {
                EventView::HeadListed(latest_listed(o.stdout))
            } else {
                EventView::Failed(BackendFailure::Logic)
            },
            SourceKind::ContentRepo => match latest_in_repository(
                o.success,
                o.stdout,
                o.stderr,
            ) {
                Ok(found) => EventView::HeadListed(found),
                Err(f) => EventView::Failed(f),
            },
        },
    }
}

/// What a query for the mount point of a snapshot's dataset means for the
/// root of the snapshot.
pub open spec fn dataset_root_of(snapshot: Seq<char>, run: Option<ToolOutputView>) -> EventView {
    match snapshot_parts(snapshot) {
        None => EventView::Failed(BackendFailure::Logic),
        Some(parts) => match run {
            None => EventView::Failed(BackendFailure::Transport),
            Some(o) => if o.success {
                EventView::RootResolved(snapshot_root(trimmed(o.stdout), parts.1))
            } else {
                EventView::Failed(BackendFailure::Logic)
            },
        },
    }
}

/// What a path-level diff between two snapshots of a dataset mounted at
/// `mountpoint` means.
pub open spec fn dataset_changes_of(
    run: Option<ToolOutputView>,
    mountpoint: Seq<char>,
) -> EventView {
    match run {
        None => EventView::Failed(BackendFailure::Transport),
        Some(o) => if o.success {
            EventView::ChangesListed {
                entries: parsed_changes(nonempty_lines(o.stdout)),
                mount_root: mountpoint,
            }
        } else {
            EventView::Failed(BackendFailure::Logic)
        },
    }
}

/// What two dry runs between the roots of two snapshots of a repository
/// mean. What the dry runs print is read whether or not they report success;
/// the paths they name are relative already.
pub open spec fn repo_changes_of(
    forward: Option<ToolOutputView>,
    reverse: Option<ToolOutputView>,
) -> EventView {
    match (forward, reverse) {
        (Some(f), Some(r)) => EventView::ChangesListed {
            entries: synthesized_changes(f.stdout, r.stdout),
            mount_root: Seq::empty(),
        },
        _ => EventView::Failed(BackendFailure::Transport),
    }
}

/// What a run of the transfer program, or of a statement of the history
/// store, means.
pub open spec fn completion_of(run: Option<ToolOutputView>, done: EventView) -> EventView {
    match run {
        None => EventView::Failed(BackendFailure::Transport),
        Some(o) => if o.success {
            done
        } else {
            EventView::Failed(BackendFailure::Logic)
        },
    }
}

/// Reads the answer to a query for the `mounted` property of a dataset.
pub fn readiness(run: Option<&ToolOutput>) -> (e: Event)
    ensures
        e@ == readiness_of(ran(run)),
{
    match run {
        None => Event::Failed(BackendFailure::Transport),
        Some(o) => match is_dataset_mounted(o.success, o.stdout.as_str()) {
            Ok(b) => Event::ReadinessChecked(b),
            Err(f) => Event::Failed(f),
        },
    }
}

/// Whether a snapshot exists, by a listing of it.
pub fn snapshot_exists(kind: SourceKind, output: &ToolOutput) -> (r: bool)
    ensures
        r == exists_by(kind, output@),
{
    match kind {
        SourceKind::DatasetLike => output.success,
        SourceKind::ContentRepo => repo_snapshot_exists(
            output.success,
            output.stdout.as_str(),
            output.stderr.as_str(),
        ),
    }
}

/// Reads a listing of one snapshot.
pub fn existence(kind: SourceKind, run: Option<&ToolOutput>) -> (e: Event)
    ensures
        e@ == existence_of(kind, ran(run)),
{
    match run {
        None => Event::Failed(BackendFailure::Transport),
        Some(o) => Event::ExistenceChecked(snapshot_exists(kind, o)),
    }
}

/// Reads a listing of the newest snapshot.
pub fn head(kind: SourceKind, run: Option<&ToolOutput>) -> (e: Event)
    ensures
        e@ == head_of(kind, ran(run)),
{
    match run {
        None => Event::Failed(BackendFailure::Transport),
        Some(o) => {
            let found = match kind {
                SourceKind::DatasetLike => get_latest_snapshot(o.success, o.stdout.as_str()),
                SourceKind::ContentRepo => get_latest_restic_snapshot(
                    o.success,
                    o.stdout.as_str(),
                    o.stderr.as_str(),
                ),
            };
            match found {
                Ok(snapshot) => Event::HeadListed(snapshot),
                Err(f) => Event::Failed(f),
            }
        },
    }
}

/// Reads the answer to a query for the mount point of a snapshot's dataset,
/// and says where the snapshot can be read. A snapshot identifier that is not
/// a container, an `@` and a label is refused whatever the query says.
pub fn dataset_root(snapshot: &str, run: Option<&ToolOutput>) -> (e: Event)
    ensures
        e@ == dataset_root_of(snapshot@, ran(run)),
{
    match get_snapshot_mountpoint(snapshot, "") {
        Err(f) => Event::Failed(f),
        Ok(_) => match run {
            None => Event::Failed(BackendFailure::Transport),
            Some(o) => match get_dataset_mountpoint(o.success, o.stdout.as_str()) {
                Err(f) => Event::Failed(f),
                Ok(mountpoint) => match get_snapshot_mountpoint(snapshot, mountpoint.as_str()) {
                    Ok(root) => Event::RootResolved(root),
                    Err(f) => Event::Failed(f),
                },
            },
        },
    }
}

/// Reads a path-level diff between two snapshots of a dataset.
pub fn dataset_changes(run: Option<&ToolOutput>, mountpoint: &str) -> (e: Event)
    ensures
        e@ == dataset_changes_of(ran(run), mountpoint@),
{
    match run {
        None => Event::Failed(BackendFailure::Transport),
        Some(o) => match get_snapshot_diff(o.success, o.stdout.as_str()) {
            Ok(lines) => Event::ChangesListed {
                entries: parse_changes(lines.as_slice()),
                mount_root: mountpoint.to_owned(),
            },
            Err(f) => Event::Failed(f),
        },
    }
}

/// Reads two dry runs between the roots of two snapshots of a repository.
pub fn repo_changes(forward: Option<&ToolOutput>, reverse: Option<&ToolOutput>) -> (e: Event)
    ensures
        e@ == repo_changes_of(ran(forward), ran(reverse)),
{
    match (forward, reverse) {
        (Some(f), Some(r)) => Event::ChangesListed {
            entries: get_restic_diff_via_rsync(f.stdout.as_str(), r.stdout.as_str()),
            mount_root: String::new(),
        },
        _ => Event::Failed(BackendFailure::Transport),
    }
}

/// Reports what came of the removals, one result for each path.
pub fn deletions(results: &[bool]) -> (e: Event)
    ensures
        e@ == (EventView::PathsDeleted {
            deleted: count_of(results@, true) as usize,
            errors: count_of(results@, false) as usize,
        }),
{
    let (deleted, errors) = delete_files_from_target(results);
    Event::PathsDeleted { deleted, errors }
}

/// Reads a run of the transfer program.
pub fn transferred(run: Option<&ToolOutput>) -> (e: Event)
    ensures
        e@ == completion_of(ran(run), EventView::Transferred),
{
    match run {
        None => Event::Failed(BackendFailure::Transport),
        Some(o) => if o.success {
            Event::Transferred
        } else {
            Event::Failed(BackendFailure::Logic)
        },
    }
}

/// Reports the snapshots that the history holds for a source, most recent
/// first.
pub fn history_listed(history: &History, source: &SourceConfig) -> (e: Event)
    ensures
        e@ == EventView::HistoryListed(
            snapshot_ids(newest_first(history@, source@.kind, source@.name)),
        ),
{
    Event::HistoryListed(history.snapshots_of(source.kind, source.name.as_str()))
}

} // verus!
