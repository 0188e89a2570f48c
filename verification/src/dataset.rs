//! Reading what the snapshot-capable filesystem's tool prints.
//!
//! The caller runs the tool and hands over whether it succeeded and what it
//! printed. A tool that ran and failed is a `BackendFailure::Logic`; a tool
//! that could not be run at all never gets here.
use crate::error::BackendFailure;
use crate::text::{
    chars_of, field, find_char, lemma_position, nonempty_lines, nth_field, position,
    same_chars, split_nonempty_lines, string_of, trim, trimmed,
};
use vstd::prelude::*;
use vstd::slice::slice_subrange;

verus! {

/// Whether the answer to a query for the `mounted` property says yes: its
/// third field, fields parted by tabs, is `yes` with white space around it
/// at most.
pub open spec fn says_mounted(output: Seq<char>) -> bool {
    match field(output, '\t', 2) {
        Some(f) => trimmed(f) == "yes"@,
        None => false,
    }
}

/// Whether a dataset is mounted, by the answer to a query for its `mounted`
/// property.
pub fn is_dataset_mounted(success: bool, stdout: &str) -> (r: Result<bool, BackendFailure>)
    ensures
        r == if success {
            Ok::<bool, BackendFailure>(says_mounted(stdout@))
        } else {
            Err(BackendFailure::Logic)
        },
{
    if !success {
        return Err(BackendFailure::Logic);
    }
    let chars = chars_of(stdout);
    let yes = chars_of("yes");
    match nth_field(chars.as_slice(), '\t', 2) {
        Some(f) => Ok(same_chars(trim(f), yes.as_slice())),
        None => Ok(false),
    }
}

/// The newest snapshot in a listing ordered by creation: its last line that
/// is not empty.
pub open spec fn latest_listed(output: Seq<char>) -> Option<Seq<char>> {
    let lines = nonempty_lines(output);
    if lines.len() > 0 {
        Some(lines.last())
    } else {
        None
    }
}

/// The newest snapshot of a dataset, by a listing of its snapshots ordered by
/// creation. A listing without a snapshot is no failure.
pub fn get_latest_snapshot(success: bool, stdout: &str) -> (r: Result<
    Option<String>,
    BackendFailure,
>)
    ensures
        match r {
            Ok(found) => success && found.deep_view() == latest_listed(stdout@),
            Err(f) => !success && f == BackendFailure::Logic,
        },
{
    if !success {
        return Err(BackendFailure::Logic);
    }
    let chars = chars_of(stdout);
    let mut lines = split_nonempty_lines(chars.as_slice());
    let ghost all = lines.deep_view();
    match lines.pop() {
        Some(last) => {
            proof {
                assert(all.last() == last@);
            }
            Ok(Some(last))
        },
        None => Ok(None),
    }
}

/// The raw records of a path-level diff: the lines of the output that are not
/// empty.
pub fn get_snapshot_diff(success: bool, stdout: &str) -> (r: Result<Vec<String>, BackendFailure>)
    ensures
        match r {
            Ok(lines) => success && lines.deep_view() == nonempty_lines(stdout@),
            Err(f) => !success && f == BackendFailure::Logic,
        },
{
    if !success {
        return Err(BackendFailure::Logic);
    }
    let chars = chars_of(stdout);
    Ok(split_nonempty_lines(chars.as_slice()))
}

/// Where a dataset is mounted, by the answer to a query for its mount point:
/// the answer without the white space around it.
pub fn get_dataset_mountpoint(success: bool, stdout: &str) -> (r: Result<String, BackendFailure>)
    ensures
        match r {
            Ok(path) => success && path@ == trimmed(stdout@),
            Err(f) => !success && f == BackendFailure::Logic,
        },
{
    if !success {
        return Err(BackendFailure::Logic);
    }
    let chars = chars_of(stdout);
    Ok(string_of(trim(chars.as_slice())))
}

/// The container and the label of a snapshot identifier: what stands before
/// and after its `@`. An identifier needs exactly one `@`.
pub open spec fn snapshot_parts(snapshot: Seq<char>) -> Option<(Seq<char>, Seq<char>)> {
    let p = position(snapshot, '@');
    if 0 <= p < snapshot.len() && position(snapshot.skip(p + 1), '@') == snapshot.len() - p
        - 1 {
        Some((snapshot.take(p), snapshot.skip(p + 1)))
    } else {
        None
    }
}

/// The directory that holds the snapshots of a dataset, below its mount
/// point.
pub open spec fn snapshot_directory() -> Seq<char> {
    "/.zfs/snapshot/"@
}

/// Where the snapshot with `label` of a dataset mounted at `mountpoint` can
/// be read.
pub open spec fn snapshot_root(mountpoint: Seq<char>, label: Seq<char>) -> Seq<char> {
    mountpoint + snapshot_directory() + label
}

/// The container and the label of a snapshot identifier.
pub fn split_snapshot_name(snapshot: &str) -> (r: Option<(String, String)>)
    ensures
        r.deep_view() == snapshot_parts(snapshot@),
{
    let chars = chars_of(snapshot);
    let s = chars.as_slice();
    let p = find_char(s, '@');
    if p >= s.len() {
        return None;
    }
    let rest = slice_subrange(s, p + 1, s.len());
    proof {
        assert(rest@ =~= s@.skip(p + 1));
    }
    let q = find_char(rest, '@');
    if q < rest.len() {
        return None;
    }
    proof {
        lemma_position(rest@, '@');
        assert(s@.subrange(0, p as int) =~= s@.take(p as int));
    }
    Some((string_of(slice_subrange(s, 0, p)), string_of(rest)))
}

/// Where a snapshot can be read, given where its dataset is mounted. An
/// identifier that is not a container, an `@` and a label is refused.
pub fn get_snapshot_mountpoint(snapshot: &str, dataset_mountpoint: &str) -> (r: Result<
    String,
    BackendFailure,
>)
    ensures
        match r {
            Ok(path) => snapshot_parts(snapshot@) is Some && path@ == snapshot_root(
                dataset_mountpoint@,
                snapshot_parts(snapshot@).unwrap().1,
            ),
            Err(f) => snapshot_parts(snapshot@) is None && f == BackendFailure::Logic,
        },
{
    match split_snapshot_name(snapshot) {
        Some((_, label)) => {
            let mut path = chars_of(dataset_mountpoint);
            let mut dir = chars_of("/.zfs/snapshot/");
            let mut name = chars_of(label.as_str());
            path.append(&mut dir);
            path.append(&mut name);
            Ok(string_of(path.as_slice()))
        },
        None => Err(BackendFailure::Logic),
    }
}

} // verus!
