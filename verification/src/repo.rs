//! Reading what the content-addressed repository's tool and the transfer
//! program's dry runs print.
use crate::change::{ChangeEntry, ChangeEntryView, ChangeType};
use crate::error::BackendFailure;
use crate::text::{
    chars_of, contains, find, find_char, first_occurrence, lemma_position, nonempty_lines,
    position, same_chars, split_nonempty_lines, starts_with, string_of, trim, trimmed,
};
use vstd::prelude::*;
use vstd::slice::slice_subrange;

verus! {

/// What the tool says where there is no repository to list.
pub open spec fn no_repository_hint() -> Seq<char> {
    "Is there a repository at the following location?"@
}

/// The mark before a snapshot's identifier in a structured listing.
pub open spec fn id_mark() -> Seq<char> {
    "\"id\":\""@
}

/// The identifier in a structured listing of one snapshot: what stands
/// between the first identifier mark and the next double quote. A listing
/// without the mark, or without a quote after it, names none.
pub open spec fn listed_id(output: Seq<char>) -> Option<Seq<char>> {
    match first_occurrence(output, id_mark()) {
        Some(i) => {
            let rest = output.skip(i + id_mark().len());
            let p = position(rest, '"');
            if 0 <= p < rest.len() {
                Some(rest.take(p))
            } else {
                None
            }
        },
        None => None,
    }
}

/// Whether a structured listing lists nothing: it is empty or `null`, white
/// space around it aside.
pub open spec fn lists_nothing(output: Seq<char>) -> bool {
    trimmed(output).len() == 0 || trimmed(output) == "null"@
}

/// What a listing of the newest snapshot of a repository says. A tool that
/// failed because there is no repository yet, and a listing of nothing, say
/// that there is no snapshot; any other failure of the tool is a failure.
pub open spec fn latest_in_repository(
    success: bool,
    stdout: Seq<char>,
    stderr: Seq<char>,
) -> Result<Option<Seq<char>>, BackendFailure> {
    if !success {
        if contains(stderr, no_repository_hint()) {
            Ok(None)
        } else {
            Err(BackendFailure::Logic)
        }
    } else if lists_nothing(stdout) {
        Ok(None)
    } else {
        Ok(listed_id(stdout))
    }
}

/// The newest snapshot of a repository, by a structured listing of it.
pub fn get_latest_restic_snapshot(success: bool, stdout: &str, stderr: &str) -> (r: Result<
    Option<String>,
    BackendFailure,
>)
    ensures
        match r {
            Ok(found) => latest_in_repository(success, stdout@, stderr@) == Ok::<
                Option<Seq<char>>,
                BackendFailure,
            >(found.deep_view()),
            Err(f) => latest_in_repository(success, stdout@, stderr@) == Err::<
                Option<Seq<char>>,
                BackendFailure,
            >(f),
        },
{
    if !success {
        let err = chars_of(stderr);
        let hint = chars_of("Is there a repository at the following location?");
        if find(err.as_slice(), hint.as_slice()).is_some() {
            return Ok(None);
        }
        return Err(BackendFailure::Logic);
    }
    let out = chars_of(stdout);
    let s = out.as_slice();
    let t = trim(s);
    let null = chars_of("null");
    if t.len() == 0 || same_chars(t, null.as_slice()) {
        return Ok(None);
    }
    let mark = chars_of("\"id\":\"");
    let m = mark.as_slice();
    match find(s, m) {
        Some(i) => {
            let n = s.len();
            proof {
                assert(i + m@.len() <= n);
                assert(s@.subrange(i + m@.len(), n as int) =~= s@.skip(i + m@.len()));
            }
            let rest = slice_subrange(s, i + m.len(), n);
            let p = find_char(rest, '"');
            proof {
                lemma_position(rest@, '"');
            }
            if p < rest.len() {
                proof {
                    assert(rest@.subrange(0, p as int) =~= rest@.take(p as int));
                }
                Ok(Some(string_of(slice_subrange(rest, 0, p))))
            } else {
                Ok(None)
            }
        },
        None => Ok(None),
    }
}

/// Whether a structured listing of one snapshot says that it exists: the
/// tool succeeded, listed something else than nothing or an empty array, and
/// did not warn that it ignored the identifier or found no match for it.
pub open spec fn listed_as_existing(success: bool, stdout: Seq<char>, stderr: Seq<char>) -> bool {
    &&& success
    &&& trimmed(stdout).len() > 0
    &&& trimmed(stdout) != "[]"@
    &&& !contains(stderr, "Ignoring"@)
    &&& !contains(stderr, "no matching ID found"@)
}

/// Whether a snapshot of a repository exists, by a structured listing of it.
pub fn repo_snapshot_exists(success: bool, stdout: &str, stderr: &str) -> (r: bool)
    ensures
        r == listed_as_existing(success, stdout@, stderr@),
{
    if !success {
        return false;
    }
    let out = chars_of(stdout);
    let t = trim(out.as_slice());
    let none = chars_of("[]");
    if t.len() == 0 || same_chars(t, none.as_slice()) {
        return false;
    }
    let err = chars_of(stderr);
    let ignoring = chars_of("Ignoring");
    let no_match = chars_of("no matching ID found");
    if find(err.as_slice(), ignoring.as_slice()).is_some() {
        return false;
    }
    if find(err.as_slice(), no_match.as_slice()).is_some() {
        return false;
    }
    true
}

/// What the state of a mount means. A mount that could not be started is a
/// transport failure; one that was started and is not ready when the wait is
/// over has timed out.
pub fn judge_mount(started: bool, ready: bool) -> (r: Result<(), BackendFailure>)
    ensures
        r == if !started {
            Err::<(), BackendFailure>(BackendFailure::Transport)
        } else if !ready {
            Err(BackendFailure::MountTimeout)
        } else {
            Ok(())
        },
{
    if !started {
        Err(BackendFailure::Transport)
    } else if !ready {
        Err(BackendFailure::MountTimeout)
    } else {
        Ok(())
    }
}

/// The path that one line of an itemized dry run names as new or changed:
/// what follows the first two spaces in a row. Lines about directories whose
/// content did not change, which begin with `.d`, name none, nor do lines
/// without two spaces in a row.
pub open spec fn itemized_path(line: Seq<char>) -> Option<Seq<char>> {
    if line.len() == 0 || ".d"@.is_prefix_of(line) {
        None
    } else {
        match first_occurrence(line, "  "@) {
            Some(i) => Some(line.skip(i + "  "@.len())),
            None => None,
        }
    }
}

/// The path that one line of an itemized dry run names as removed: what
/// follows the deletion mark.
pub open spec fn itemized_deletion(line: Seq<char>) -> Option<Seq<char>> {
    if "*deleting   "@.is_prefix_of(line) {
        Some(line.skip("*deleting   "@.len() as int))
    } else {
        None
    }
}

/// The change that stands for a path that is new or changed.
pub open spec fn modification(path: Seq<char>) -> ChangeEntryView {
    ChangeEntryView { change_type: ChangeType::Modified, path, rename_target: None }
}

/// The change that stands for a path that is gone.
pub open spec fn removal(path: Seq<char>) -> ChangeEntryView {
    ChangeEntryView { change_type: ChangeType::Removed, path, rename_target: None }
}

/// The modifications that the lines of an itemized dry run name, in order.
pub open spec fn modifications(lines: Seq<Seq<char>>) -> Seq<ChangeEntryView>
    decreases lines.len(),
{
    if lines.len() == 0 {
        Seq::empty()
    } else {
        let before = modifications(lines.drop_last());
        match itemized_path(lines.last()) {
            Some(p) => before.push(modification(p)),
            None => before,
        }
    }
}

/// The removals that the lines of an itemized dry run name, in order.
pub open spec fn removals(lines: Seq<Seq<char>>) -> Seq<ChangeEntryView>
    decreases lines.len(),
{
    if lines.len() == 0 {
        Seq::empty()
    } else {
        let before = removals(lines.drop_last());
        match itemized_deletion(lines.last()) {
            Some(p) => before.push(removal(p)),
            None => before,
        }
    }
}

/// The change list that two dry runs between the roots of two snapshots
/// stand for: what the run from the new root to the old one names as new or
/// changed, then what the run from the old root to the new one, made as if
/// it removed what the new root lacks, names as removed.
pub open spec fn synthesized_changes(forward: Seq<char>, reverse: Seq<char>) -> Seq<
    ChangeEntryView,
> {
    modifications(nonempty_lines(forward)) + removals(nonempty_lines(reverse))
}

/// Reads one line of an itemized dry run for a path that is new or changed.
pub fn parse_itemized_path(line: &str) -> (r: Option<String>)
    ensures
        r.deep_view() == itemized_path(line@),
{
    let chars = chars_of(line);
    let s = chars.as_slice();
    let dir = chars_of(".d");
    if s.len() == 0 || starts_with(s, dir.as_slice()) {
        return None;
    }
    let gap = chars_of("  ");
    let g = gap.as_slice();
    match find(s, g) {
        Some(i) => {
            let n = s.len();
            proof {
                assert(i + g@.len() <= n);
                assert(s@.subrange(i + g@.len(), n as int) =~= s@.skip(i + g@.len()));
            }
            Some(string_of(slice_subrange(s, i + g.len(), n)))
        },
        None => None,
    }
}

/// Reads one line of an itemized dry run for a path that is removed.
pub fn parse_itemized_deletion(line: &str) -> (r: Option<String>)
    ensures
        r.deep_view() == itemized_deletion(line@),
{
    let chars = chars_of(line);
    let s = chars.as_slice();
    let mark = chars_of("*deleting   ");
    let m = mark.as_slice();
    if starts_with(s, m) {
        let n = s.len();
        proof {
            assert(s@.subrange(m@.len() as int, n as int) =~= s@.skip(m@.len() as int));
        }
        Some(string_of(slice_subrange(s, m.len(), n)))
    } else {
        None
    }
}

/// The change list that two dry runs between the roots of two snapshots
/// stand for. The paths are relative to the roots.
pub fn get_restic_diff_via_rsync(forward: &str, reverse: &str) -> (r: Vec<ChangeEntry>)
    ensures
        r.deep_view() == synthesized_changes(forward@, reverse@),
{
    let fchars = chars_of(forward);
    let flines = split_nonempty_lines(fchars.as_slice());
    let mut out: Vec<ChangeEntry> = Vec::new();
    let mut i: usize = 0;
    proof {
        assert(flines.deep_view().take(0) =~= Seq::<Seq<char>>::empty());
        assert(out.deep_view() =~= Seq::<ChangeEntryView>::empty());
    }
    while i < flines.len()
        invariant
            i <= flines@.len(),
            out.deep_view() == modifications(flines.deep_view().take(i as int)),
        decreases flines@.len() - i,
    {
        let ghost before = out.deep_view();
        proof {
            let t = flines.deep_view().take(i + 1);
            assert(t.drop_last() =~= flines.deep_view().take(i as int));
            assert(t.last() == flines@[i as int]@);
        }
        match parse_itemized_path(flines[i].as_str()) {
            Some(path) => {
                let e = ChangeEntry {
                    change_type: ChangeType::Modified,
                    path,
                    rename_target: None,
                };
                let ghost ev = e@;
                out.push(e);
                proof {
                    assert(out.deep_view() =~= before.push(ev));
                }
            },
            None => {},
        }
        i += 1;
    }
    proof {
        assert(flines.deep_view().take(i as int) =~= flines.deep_view());
    }
    let ghost mods = out.deep_view();
    let rchars = chars_of(reverse);
    let rlines = split_nonempty_lines(rchars.as_slice());
    let mut k: usize = 0;
    proof {
        assert(rlines.deep_view().take(0) =~= Seq::<Seq<char>>::empty());
        assert(mods + Seq::<ChangeEntryView>::empty() =~= mods);
    }
    while k < rlines.len()
        invariant
            k <= rlines@.len(),
            out.deep_view() == mods + removals(rlines.deep_view().take(k as int)),
        decreases rlines@.len() - k,
    {
        let ghost before = out.deep_view();
        let ghost rem = removals(rlines.deep_view().take(k as int));
        proof {
            let t = rlines.deep_view().take(k + 1);
            assert(t.drop_last() =~= rlines.deep_view().take(k as int));
            assert(t.last() == rlines@[k as int]@);
        }
        match parse_itemized_deletion(rlines[k].as_str()) {
            Some(path) => {
                let e = ChangeEntry { change_type: ChangeType::Removed, path, rename_target: None };
                let ghost ev = e@;
                out.push(e);
                proof {
                    assert(out.deep_view() =~= before.push(ev));
                    assert((mods + rem).push(ev) =~= mods + rem.push(ev));
                }
            },
            None => {},
        }
        k += 1;
    }
    proof {
        assert(rlines.deep_view().take(k as int) =~= rlines.deep_view());
    }
    out
}

} // verus!
