//! Change lists: what a source reports as changed between two snapshots, and
//! which paths of the target that asks to copy or to remove.
use crate::text::{
    chars_of, field, find, find_char, first_occurrence, lemma_position,
    lemma_without_leading_slashes, nth_field, position, same_chars, starts_with, string_of,
    strip_leading_slashes, without_leading_slashes,
};
use vstd::prelude::*;
use vstd::slice::slice_subrange;

verus! {

/// What happened to a path between two snapshots.
#[derive(Clone, Copy, PartialEq, Eq, Debug, Structural)]
pub enum ChangeType {
    Added,
    Modified,
    Removed,
    Renamed,
}

/// One changed path. A rename holds the old path in `path` and the new one in
/// `rename_target`.
#[derive(Debug, PartialEq, Eq)]
pub struct ChangeEntry {
    pub change_type: ChangeType,
    pub path: String,
    pub rename_target: Option<String>,
}

/// The mathematical value of a `ChangeEntry`.
pub struct ChangeEntryView {
    pub change_type: ChangeType,
    pub path: Seq<char>,
    pub rename_target: Option<Seq<char>>,
}

impl View for ChangeEntry {
    type V = ChangeEntryView;

    open spec fn view(&self) -> ChangeEntryView {
        ChangeEntryView {
            change_type: self.change_type,
            path: self.path@,
            rename_target: match self.rename_target {
                Some(t) => Some(t@),
                None => None,
            },
        }
    }
}

impl DeepView for ChangeEntry {
    type V = ChangeEntryView;

    open spec fn deep_view(&self) -> ChangeEntryView {
        self@
    }
}

impl Clone for ChangeEntry {
    fn clone(&self) -> (r: Self)
        ensures
            r@ == self@,
    {
        ChangeEntry {
            change_type: self.change_type,
            path: self.path.clone(),
            rename_target: match &self.rename_target {
                Some(t) => Some(t.clone()),
                None => None,
            },
        }
    }
}

/// What one line of a path-level diff says: the change code, which is the
/// first character of the first field, and the second field. A line needs two
/// fields parted by a tab, the first of them not empty.
pub open spec fn diff_line(line: Seq<char>) -> Option<(char, Seq<char>)> {
    match field(line, '\t', 1) {
        Some(path) => if position(line, '\t') > 0 {
            Some((line[0], path))
        } else {
            None
        },
        None => None,
    }
}

/// Reads one line of a path-level diff.
pub fn parse_zfs_diff_line(line: &str) -> (r: Option<(char, String)>)
    ensures
        r.deep_view() == diff_line(line@),
{
    let chars = chars_of(line);
    let s = chars.as_slice();
    let p = find_char(s, '\t');
    proof {
        lemma_position(s@, '\t');
    }
    match nth_field(s, '\t', 1) {
        Some(path) => {
            if p > 0 {
                Some((s[0], string_of(path)))
            } else {
                None
            }
        },
        None => None,
    }
}

/// `path` without `mountpoint` and the slash after it at its start; `path`
/// itself where it does not begin with the two.
pub open spec fn without_mountpoint(path: Seq<char>, mountpoint: Seq<char>) -> Seq<char> {
    let n = mountpoint.len() as int;
    if mountpoint.is_prefix_of(path) && path.len() > n && path[n] == '/' {
        path.skip(n + 1)
    } else {
        path
    }
}

/// `without_mountpoint` on slices.
pub fn strip_mountpoint<'a>(path: &'a [char], mountpoint: &[char]) -> (r: &'a [char])
    ensures
        r@ == without_mountpoint(path@, mountpoint@),
{
    let n = mountpoint.len();
    if starts_with(path, mountpoint) && path.len() > n && path[n] == '/' {
        proof {
            assert(path@.skip(n + 1) =~= path@.subrange(n + 1, path@.len() as int));
        }
        slice_subrange(path, n + 1, path.len())
    } else {
        path
    }
}

/// Takes the mount point and the slash after it off the start of a path.
pub fn strip_mountpoint_prefix(file_path: &str, mountpoint: &str) -> (r: String)
    ensures
        r@ == without_mountpoint(file_path@, mountpoint@),
{
    let path = chars_of(file_path);
    let root = chars_of(mountpoint);
    string_of(strip_mountpoint(path.as_slice(), root.as_slice()))
}

/// The path of the target that stands for `path` of a source mounted at
/// `root`: nothing for the root itself, else `path` without the root, the
/// slash after it and any further slashes at its start.
pub open spec fn relative_path(path: Seq<char>, root: Seq<char>) -> Seq<char> {
    if path == root {
        Seq::empty()
    } else {
        without_leading_slashes(without_mountpoint(path, root))
    }
}

/// Whether `p` names something below a directory: it is not empty and does not
/// begin with a slash.
pub open spec fn is_relative(p: Seq<char>) -> bool {
    p.len() > 0 && p[0] != '/'
}

/// A relative path is empty or names something below the root.
pub proof fn lemma_relative_path(path: Seq<char>, root: Seq<char>)
    ensures
        relative_path(path, root).len() > 0 ==> is_relative(relative_path(path, root)),
{
    lemma_without_leading_slashes(without_mountpoint(path, root));
}

/// Computes `relative_path`.
pub fn relativize<'a>(path: &'a [char], root: &[char]) -> (r: &'a [char])
    ensures
        r@ == relative_path(path@, root@),
{
    if same_chars(path, root) {
        proof {
            assert(path@.subrange(0, 0) =~= Seq::<char>::empty());
        }
        slice_subrange(path, 0, 0)
    } else {
        strip_leading_slashes(strip_mountpoint(path, root))
    }
}

/// The mark that parts the old path of a rename from the new one.
pub open spec fn arrow() -> Seq<char> {
    " -> "@
}

/// The old path of a rename record: what stands before the first arrow.
pub open spec fn rename_origin(path: Seq<char>) -> Seq<char> {
    match first_occurrence(path, arrow()) {
        Some(i) => path.take(i),
        None => path,
    }
}

/// The new path of a rename record: what stands between the first arrow and
/// the next one, or the end. A record without an arrow names none.
pub open spec fn rename_destination(path: Seq<char>) -> Option<Seq<char>> {
    match first_occurrence(path, arrow()) {
        Some(i) => {
            let rest = path.skip(i + arrow().len());
            match first_occurrence(rest, arrow()) {
                Some(j) => Some(rest.take(j)),
                None => Some(rest),
            }
        },
        None => None,
    }
}

/// The change that a code and a path field stand for: `+` added, `M`
/// modified, `-` removed, `R` renamed. Any other code stands for none.
pub open spec fn change_of(code: char, path: Seq<char>) -> Option<ChangeEntryView> {
    if code == '+' {
        Some(ChangeEntryView { change_type: ChangeType::Added, path, rename_target: None })
    } else if code == 'M' {
        Some(ChangeEntryView { change_type: ChangeType::Modified, path, rename_target: None })
    } else if code == '-' {
        Some(ChangeEntryView { change_type: ChangeType::Removed, path, rename_target: None })
    } else if code == 'R' {
        Some(
            ChangeEntryView {
                change_type: ChangeType::Renamed,
                path: rename_origin(path),
                rename_target: rename_destination(path),
            },
        )
    } else {
        None
    }
}

/// The change that one line of a path-level diff stands for.
pub open spec fn change_of_line(line: Seq<char>) -> Option<ChangeEntryView> {
    match diff_line(line) {
        Some((code, path)) => change_of(code, path),
        None => None,
    }
}

/// The changes that the lines of a path-level diff stand for, in order.
/// Lines that stand for none are passed over.
pub open spec fn parsed_changes(lines: Seq<Seq<char>>) -> Seq<ChangeEntryView>
    decreases lines.len(),
{
    if lines.len() == 0 {
        Seq::empty()
    } else {
        let before = parsed_changes(lines.drop_last());
        match change_of_line(lines.last()) {
            Some(e) => before.push(e),
            None => before,
        }
    }
}

impl ChangeEntry {
    /// The change that a code and a path field stand for.
    pub fn from_diff(code: char, path: &str) -> (r: Option<ChangeEntry>)
        ensures
            r.deep_view() == change_of(code, path@),
    {
        if code == '+' {
            Some(
                ChangeEntry {
                    change_type: ChangeType::Added,
                    path: path.to_owned(),
                    rename_target: None,
                },
            )
        } else if code == 'M' {
            Some(
                ChangeEntry {
                    change_type: ChangeType::Modified,
                    path: path.to_owned(),
                    rename_target: None,
                },
            )
        } else if code == '-' {
            Some(
                ChangeEntry {
                    change_type: ChangeType::Removed,
                    path: path.to_owned(),
                    rename_target: None,
                },
            )
        } else if code == 'R' {
            let chars = chars_of(path);
            let s = chars.as_slice();
            let mark = chars_of(" -> ");
            let m = mark.as_slice();
            match find(s, m) {
                Some(i) => {
                    let n = s.len();
                    proof {
                        assert(i + m@.len() <= n);
                        assert(s@.subrange(0, i as int) =~= s@.take(i as int));
                        assert(s@.subrange(i + m@.len(), s@.len() as int) =~= s@.skip(
                            i + m@.len(),
                        ));
                    }
                    let origin = slice_subrange(s, 0, i);
                    let rest = slice_subrange(s, i + m.len(), n);
                    let target = match find(rest, m) {
                        Some(j) => {
                            proof {
                                assert(rest@.subrange(0, j as int) =~= rest@.take(j as int));
                            }
                            slice_subrange(rest, 0, j)
                        },
                        None => rest,
                    };
                    Some(
                        ChangeEntry {
                            change_type: ChangeType::Renamed,
                            path: string_of(origin),
                            rename_target: Some(string_of(target)),
                        },
                    )
                },
                None => Some(
                    ChangeEntry {
                        change_type: ChangeType::Renamed,
                        path: path.to_owned(),
                        rename_target: None,
                    },
                ),
            }
        } else {
            None
        }
    }

    /// The change that one line of a path-level diff stands for.
    pub fn from_line(line: &str) -> (r: Option<ChangeEntry>)
        ensures
            r.deep_view() == change_of_line(line@),
    {
        match parse_zfs_diff_line(line) {
            Some((code, path)) => ChangeEntry::from_diff(code, path.as_str()),
            None => None,
        }
    }
}

/// Reads the lines of a path-level diff.
pub fn parse_changes(lines: &[String]) -> (r: Vec<ChangeEntry>)
    ensures
        r.deep_view() == parsed_changes(lines.deep_view()),
{
    let mut out: Vec<ChangeEntry> = Vec::new();
    let mut i: usize = 0;
    proof {
        assert(lines.deep_view().take(0) =~= Seq::<Seq<char>>::empty());
        assert(out.deep_view() =~= Seq::<ChangeEntryView>::empty());
    }
    while i < lines.len()
        invariant
            i <= lines@.len(),
            out.deep_view() == parsed_changes(lines.deep_view().take(i as int)),
        decreases lines@.len() - i,
    {
        let ghost before = out.deep_view();
        proof {
            let t = lines.deep_view().take(i + 1);
            assert(t.drop_last() =~= lines.deep_view().take(i as int));
            assert(t.last() == lines@[i as int]@);
        }
        match ChangeEntry::from_line(lines[i].as_str()) {
            Some(e) => {
                let ghost ev = e@;
                out.push(e);
                proof {
                    assert(out.deep_view() =~= before.push(ev));
                }
            },
            None => {},
        }
        i += 1;
    }
    proof {
        assert(lines.deep_view().take(i as int) =~= lines.deep_view());
    }
    out
}

/// The path that a change asks to copy, relative to `root`: the path itself
/// for an addition or a modification, the new path for a rename, none for a
/// removal. The root itself is not copied.
pub open spec fn sync_target(e: ChangeEntryView, root: Seq<char>) -> Option<Seq<char>> {
    let named = match e.change_type {
        ChangeType::Added => Some(e.path),
        ChangeType::Modified => Some(e.path),
        ChangeType::Renamed => e.rename_target,
        ChangeType::Removed => None,
    };
    match named {
        Some(p) => {
            let r = relative_path(p, root);
            if r.len() > 0 {
                Some(r)
            } else {
                None
            }
        },
        None => None,
    }
}

/// The path that a change asks to remove, relative to `root`: the path of a
/// removal, unless it is the root itself.
pub open spec fn deletion_target(e: ChangeEntryView, root: Seq<char>) -> Option<Seq<char>> {
    if e.change_type == ChangeType::Removed && relative_path(e.path, root).len() > 0 {
        Some(relative_path(e.path, root))
    } else {
        None
    }
}

/// The paths that a change list asks to copy, in the order of the list.
pub open spec fn sync_paths(entries: Seq<ChangeEntryView>, root: Seq<char>) -> Seq<Seq<char>>
    decreases entries.len(),
{
    if entries.len() == 0 {
        Seq::empty()
    } else {
        let before = sync_paths(entries.drop_last(), root);
        match sync_target(entries.last(), root) {
            Some(p) => before.push(p),
            None => before,
        }
    }
}

/// The paths that a change list asks to remove, in the order of the list.
pub open spec fn deletion_paths(entries: Seq<ChangeEntryView>, root: Seq<char>) -> Seq<
    Seq<char>,
>
    decreases entries.len(),
{
    if entries.len() == 0 {
        Seq::empty()
    } else {
        let before = deletion_paths(entries.drop_last(), root);
        match deletion_target(entries.last(), root) {
            Some(p) => before.push(p),
            None => before,
        }
    }
}

impl ChangeEntry {
    /// The path that this change asks to copy.
    pub fn sync_target(&self, root: &[char]) -> (r: Option<String>)
        ensures
            r.deep_view() == sync_target(self@, root@),
    {
        let named: &String = match self.change_type {
            ChangeType::Added => &self.path,
            ChangeType::Modified => &self.path,
            ChangeType::Renamed => match &self.rename_target {
                Some(t) => t,
                None => {
                    return None;
                },
            },
            ChangeType::Removed => {
                return None;
            },
        };
        let chars = chars_of(named.as_str());
        let rel = relativize(chars.as_slice(), root);
        if rel.len() > 0 {
            Some(string_of(rel))
        } else {
            None
        }
    }

    /// The path that this change asks to remove.
    pub fn deletion_target(&self, root: &[char]) -> (r: Option<String>)
        ensures
            r.deep_view() == deletion_target(self@, root@),
    {
        match self.change_type {
            ChangeType::Removed => {
                let chars = chars_of(self.path.as_str());
                let rel = relativize(chars.as_slice(), root);
                if rel.len() > 0 {
                    Some(string_of(rel))
                } else {
                    None
                }
            },
            _ => None,
        }
    }
}

/// The paths that a change list asks to copy.
pub fn files_to_sync(entries: &[ChangeEntry], root: &str) -> (r: Vec<String>)
    ensures
        r.deep_view() == sync_paths(entries.deep_view(), root@),
{
    let root_chars = chars_of(root);
    let mut out: Vec<String> = Vec::new();
    let mut i: usize = 0;
    proof {
        assert(entries.deep_view().take(0) =~= Seq::<ChangeEntryView>::empty());
        assert(out.deep_view() =~= Seq::<Seq<char>>::empty());
    }
    while i < entries.len()
        invariant
            i <= entries@.len(),
            root_chars@ == root@,
            out.deep_view() == sync_paths(entries.deep_view().take(i as int), root@),
        decreases entries@.len() - i,
    {
        let ghost before = out.deep_view();
        proof {
            let t = entries.deep_view().take(i + 1);
            assert(t.drop_last() =~= entries.deep_view().take(i as int));
            assert(t.last() == entries@[i as int]@);
        }
        match entries[i].sync_target(root_chars.as_slice()) {
            Some(p) => {
                let ghost pv = p@;
                out.push(p);
                proof {
                    assert(out.deep_view() =~= before.push(pv));
                }
            },
            None => {},
        }
        i += 1;
    }
    proof {
        assert(entries.deep_view().take(i as int) =~= entries.deep_view());
    }
    out
}

/// The paths that a change list asks to remove.
pub fn files_to_delete(entries: &[ChangeEntry], root: &str) -> (r: Vec<String>)
    ensures
        r.deep_view() == deletion_paths(entries.deep_view(), root@),
{
    let root_chars = chars_of(root);
    let mut out: Vec<String> = Vec::new();
    let mut i: usize = 0;
    proof {
        assert(entries.deep_view().take(0) =~= Seq::<ChangeEntryView>::empty());
        assert(out.deep_view() =~= Seq::<Seq<char>>::empty());
    }
    while i < entries.len()
        invariant
            i <= entries@.len(),
            root_chars@ == root@,
            out.deep_view() == deletion_paths(entries.deep_view().take(i as int), root@),
        decreases entries@.len() - i,
    {
        let ghost before = out.deep_view();
        proof {
            let t = entries.deep_view().take(i + 1);
            assert(t.drop_last() =~= entries.deep_view().take(i as int));
            assert(t.last() == entries@[i as int]@);
        }
        match entries[i].deletion_target(root_chars.as_slice()) {
            Some(p) => {
                let ghost pv = p@;
                out.push(p);
                proof {
                    assert(out.deep_view() =~= before.push(pv));
                }
            },
            None => {},
        }
        i += 1;
    }
    proof {
        assert(entries.deep_view().take(i as int) =~= entries.deep_view());
    }
    out
}

/// The paths that the lines of a path-level diff ask to copy, relative to the
/// mount point.
pub fn extract_files_for_sync(changes: &[String], mountpoint: &str) -> (r: Vec<String>)
    ensures
        r.deep_view() == sync_paths(parsed_changes(changes.deep_view()), mountpoint@),
{
    let entries = parse_changes(changes);
    files_to_sync(entries.as_slice(), mountpoint)
}

/// The paths that the lines of a path-level diff ask to remove, relative to
/// the mount point.
pub fn extract_files_for_deletion(changes: &[String], mountpoint: &str) -> (r: Vec<String>)
    ensures
        r.deep_view() == deletion_paths(parsed_changes(changes.deep_view()), mountpoint@),
{
    let entries = parse_changes(changes);
    files_to_delete(entries.as_slice(), mountpoint)
}

} // verus!
