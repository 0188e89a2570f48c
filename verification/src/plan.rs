//! Transfer plans: what is to be removed from the target and what is to be
//! copied to it.
use crate::change::{
    deletion_paths, deletion_target, files_to_delete, files_to_sync, is_relative,
    lemma_relative_path, sync_paths, sync_target, ChangeEntry, ChangeEntryView,
};
use crate::text::{chars_of, same_chars};
use vstd::prelude::*;

verus! {

/// `s` with every path kept where it stands first.
pub open spec fn unique(s: Seq<Seq<char>>) -> Seq<Seq<char>>
    decreases s.len(),
{
    if s.len() == 0 {
        Seq::empty()
    } else {
        let before = unique(s.drop_last());
        if before.contains(s.last()) {
            before
        } else {
            before.push(s.last())
        }
    }
}

/// `unique` keeps exactly the paths of `s`, each once.
pub proof fn lemma_unique(s: Seq<Seq<char>>)
    ensures
        unique(s).no_duplicates(),
        forall|p: Seq<char>| unique(s).contains(p) <==> s.contains(p),
        unique(s).len() <= s.len(),
    decreases s.len(),
{
    if s.len() > 0 {
        let t = s.drop_last();
        lemma_unique(t);
        let u = unique(t);
        assert forall|p: Seq<char>| unique(s).contains(p) <==> s.contains(p) by {
            if s.contains(p) {
                let i = choose|i: int| 0 <= i < s.len() && s[i] == p;
                if i < s.len() - 1 {
                    assert(t[i] == p);
                    assert(t.contains(p));
                    assert(u.contains(p));
                    if !u.contains(s.last()) {
                        let j = choose|j: int| 0 <= j < u.len() && u[j] == p;
                        assert(u.push(s.last())[j] == p);
                    }
                } else {
                    if !u.contains(s.last()) {
                        assert(u.push(s.last())[u.len() as int] == p);
                    }
                }
            }
            if unique(s).contains(p) {
                let j = choose|j: int| 0 <= j < unique(s).len() && unique(s)[j] == p;
                if j < u.len() {
                    assert(u[j] == p);
                    assert(u.contains(p));
                    assert(t.contains(p));
                    let i = choose|i: int| 0 <= i < t.len() && t[i] == p;
                    assert(s[i] == p);
                } else {
                    assert(s[s.len() - 1] == p);
                }
            }
        }
    }
}

/// Keeps each path where it stands first.
pub fn dedup(paths: Vec<String>) -> (r: Vec<String>)
    ensures
        r.deep_view() == unique(paths.deep_view()),
{
    let mut out: Vec<String> = Vec::new();
    let mut kept: Vec<Vec<char>> = Vec::new();
    let mut i: usize = 0;
    proof {
        assert(paths.deep_view().take(0) =~= Seq::<Seq<char>>::empty());
        assert(out.deep_view() =~= Seq::<Seq<char>>::empty());
    }
    while i < paths.len()
        invariant
            i <= paths@.len(),
            out.deep_view() == unique(paths.deep_view().take(i as int)),
            kept@.len() == out@.len(),
            forall|j: int| 0 <= j < kept@.len() ==> (#[trigger] kept@[j])@ == out@[j]@,
        decreases paths@.len() - i,
    {
        let ghost before = out.deep_view();
        proof {
            let t = paths.deep_view().take(i + 1);
            assert(t.drop_last() =~= paths.deep_view().take(i as int));
            assert(t.last() == paths@[i as int]@);
        }
        let path = chars_of(paths[i].as_str());
        let mut seen = false;
        let mut k: usize = 0;
        while k < kept.len() && !seen
            invariant
                k <= kept@.len(),
                kept@.len() == out@.len(),
                forall|j: int| 0 <= j < kept@.len() ==> (#[trigger] kept@[j])@ == out@[j]@,
                out.deep_view() == before,
                path@ == paths@[i as int]@,
                seen ==> before.contains(path@),
                !seen ==> forall|j: int| 0 <= j < k ==> before[j] != path@,
            decreases kept@.len() - k + (if seen { 0int } else { 1int }),
        {
            if same_chars(kept[k].as_slice(), path.as_slice()) {
                seen = true;
                proof {
                    assert(before[k as int] == path@);
                }
            } else {
                k += 1;
            }
        }
        if !seen {
            out.push(paths[i].clone());
            kept.push(path);
            proof {
                assert(out.deep_view() =~= before.push(paths@[i as int]@));
            }
        }
        i += 1;
    }
    proof {
        assert(paths.deep_view().take(i as int) =~= paths.deep_view());
    }
    out
}

/// The mathematical value of a `TransferPlan`.
pub struct TransferPlanView {
    /// Paths to remove from the target, relative to it.
    pub deletions: Seq<Seq<char>>,
    /// Whether the whole source root is mirrored, removing from the target
    /// what the root does not hold.
    pub sync_all: bool,
    /// Paths to copy from the source root, relative to it.
    pub sync_files: Seq<Seq<char>>,
    /// Where the snapshot can be read.
    pub source_root: Seq<char>,
}

impl TransferPlanView {
    /// What holds of every plan: a full mirror lists no paths, no path is
    /// listed twice, and every path names something below the root.
    pub open spec fn wf(self) -> bool {
        &&& self.sync_all ==> self.sync_files.len() == 0 && self.deletions.len() == 0
        &&& self.deletions.no_duplicates()
        &&& self.sync_files.no_duplicates()
        &&& forall|i: int|
            0 <= i < self.deletions.len() ==> is_relative(#[trigger] self.deletions[i])
        &&& forall|i: int|
            0 <= i < self.sync_files.len() ==> is_relative(#[trigger] self.sync_files[i])
    }

    /// Whether the plan asks for nothing.
    pub open spec fn is_empty(self) -> bool {
        !self.sync_all && self.sync_files.len() == 0 && self.deletions.len() == 0
    }
}

/// The plan of a full mirror from `source_root`.
pub open spec fn full_plan(source_root: Seq<char>) -> TransferPlanView {
    TransferPlanView {
        deletions: Seq::empty(),
        sync_all: true,
        sync_files: Seq::empty(),
        source_root,
    }
}

/// The plan that a change list asks for. The paths of the list are taken
/// relative to `mount_root`; what is copied is read below `source_root`.
pub open spec fn incremental_plan(
    entries: Seq<ChangeEntryView>,
    mount_root: Seq<char>,
    source_root: Seq<char>,
) -> TransferPlanView {
    TransferPlanView {
        deletions: unique(deletion_paths(entries, mount_root)),
        sync_all: false,
        sync_files: unique(sync_paths(entries, mount_root)),
        source_root,
    }
}

/// Every path that a change list asks to copy names something below the root.
pub proof fn lemma_sync_paths_relative(entries: Seq<ChangeEntryView>, root: Seq<char>)
    ensures
        forall|i: int|
            0 <= i < sync_paths(entries, root).len() ==> is_relative(
                #[trigger] sync_paths(entries, root)[i],
            ),
    decreases entries.len(),
{
    if entries.len() > 0 {
        lemma_sync_paths_relative(entries.drop_last(), root);
        let e = entries.last();
        if e.rename_target is Some {
            lemma_relative_path(e.rename_target->0, root);
        }
        lemma_relative_path(e.path, root);
        let before = sync_paths(entries.drop_last(), root);
        let all = sync_paths(entries, root);
        assert forall|i: int| 0 <= i < all.len() implies is_relative(#[trigger] all[i]) by {
            if i < before.len() {
                assert(all[i] == before[i]);
            }
        }
    }
}

/// Every path that a change list asks to remove names something below the
/// root.
pub proof fn lemma_deletion_paths_relative(entries: Seq<ChangeEntryView>, root: Seq<char>)
    ensures
        forall|i: int|
            0 <= i < deletion_paths(entries, root).len() ==> is_relative(
                #[trigger] deletion_paths(entries, root)[i],
            ),
    decreases entries.len(),
{
    if entries.len() > 0 {
        lemma_deletion_paths_relative(entries.drop_last(), root);
        lemma_relative_path(entries.last().path, root);
        let before = deletion_paths(entries.drop_last(), root);
        let all = deletion_paths(entries, root);
        assert forall|i: int| 0 <= i < all.len() implies is_relative(#[trigger] all[i]) by {
            if i < before.len() {
                assert(all[i] == before[i]);
            }
        }
    }
}

/// A full plan never carries a list of files: it is well formed.
pub proof fn lemma_full_plan_wf(source_root: Seq<char>)
    ensures
        full_plan(source_root).wf(),
        !full_plan(source_root).is_empty(),
{
}

/// An incremental plan never asks for a full mirror, lists no path twice and
/// lists only paths below the root: it is well formed.
pub proof fn lemma_incremental_plan_wf(
    entries: Seq<ChangeEntryView>,
    mount_root: Seq<char>,
    source_root: Seq<char>,
)
    ensures
        incremental_plan(entries, mount_root, source_root).wf(),
        !incremental_plan(entries, mount_root, source_root).sync_all,
{
    let d = deletion_paths(entries, mount_root);
    let f = sync_paths(entries, mount_root);
    lemma_unique(d);
    lemma_unique(f);
    lemma_deletion_paths_relative(entries, mount_root);
    lemma_sync_paths_relative(entries, mount_root);
    assert forall|i: int| 0 <= i < unique(d).len() implies is_relative(#[trigger] unique(d)[i]) by {
        assert(unique(d).contains(unique(d)[i]));
        assert(d.contains(unique(d)[i]));
    }
    assert forall|i: int| 0 <= i < unique(f).len() implies is_relative(#[trigger] unique(f)[i]) by {
        assert(unique(f).contains(unique(f)[i]));
        assert(f.contains(unique(f)[i]));
    }
}

/// Whether some change of a list asks to copy `p`.
pub open spec fn asks_to_sync(
    entries: Seq<ChangeEntryView>,
    root: Seq<char>,
    p: Seq<char>,
) -> bool {
    exists|i: int| 0 <= i < entries.len() && sync_target(#[trigger] entries[i], root) == Some(p)
}

/// Whether some change of a list asks to remove `p`.
pub open spec fn asks_to_delete(
    entries: Seq<ChangeEntryView>,
    root: Seq<char>,
    p: Seq<char>,
) -> bool {
    exists|i: int|
        0 <= i < entries.len() && deletion_target(#[trigger] entries[i], root) == Some(p)
}

/// A change list asks to copy exactly the paths that its changes ask to
/// copy.
pub proof fn lemma_sync_paths_members(entries: Seq<ChangeEntryView>, root: Seq<char>, p: Seq<char>)
    ensures
        sync_paths(entries, root).contains(p) <==> asks_to_sync(entries, root, p),
    decreases entries.len(),
{
    if entries.len() > 0 {
        let rest = entries.drop_last();
        lemma_sync_paths_members(rest, root, p);
        let before = sync_paths(rest, root);
        let all = sync_paths(entries, root);
        if all.contains(p) {
            let k = choose|k: int| 0 <= k < all.len() && all[k] == p;
            if k < before.len() {
                assert(before[k] == p);
                assert(before.contains(p));
                let i = choose|i: int|
                    0 <= i < rest.len() && sync_target(#[trigger] rest[i], root) == Some(p);
                assert(sync_target(entries[i], root) == Some(p));
            } else {
                assert(sync_target(entries[entries.len() - 1], root) == Some(p));
            }
        }
        if asks_to_sync(entries, root, p) {
            let i = choose|i: int|
                0 <= i < entries.len() && sync_target(#[trigger] entries[i], root) == Some(p);
            if i < rest.len() {
                assert(sync_target(rest[i], root) == Some(p));
                assert(before.contains(p));
                let k = choose|k: int| 0 <= k < before.len() && before[k] == p;
                assert(all[k] == p);
            } else {
                assert(all[all.len() - 1] == p);
            }
        }
    }
}

/// A change list asks to remove exactly the paths that its changes ask to
/// remove.
pub proof fn lemma_deletion_paths_members(
    entries: Seq<ChangeEntryView>,
    root: Seq<char>,
    p: Seq<char>,
)
    ensures
        deletion_paths(entries, root).contains(p) <==> asks_to_delete(entries, root, p),
    decreases entries.len(),
{
    if entries.len() > 0 {
        let rest = entries.drop_last();
        lemma_deletion_paths_members(rest, root, p);
        let before = deletion_paths(rest, root);
        let all = deletion_paths(entries, root);
        if all.contains(p) {
            let k = choose|k: int| 0 <= k < all.len() && all[k] == p;
            if k < before.len() {
                assert(before[k] == p);
                assert(before.contains(p));
                let i = choose|i: int|
                    0 <= i < rest.len() && deletion_target(#[trigger] rest[i], root) == Some(p);
                assert(deletion_target(entries[i], root) == Some(p));
            } else {
                assert(deletion_target(entries[entries.len() - 1], root) == Some(p));
            }
        }
        if asks_to_delete(entries, root, p) {
            let i = choose|i: int|
                0 <= i < entries.len() && deletion_target(#[trigger] entries[i], root) == Some(p);
            if i < rest.len() {
                assert(deletion_target(rest[i], root) == Some(p));
                assert(before.contains(p));
                let k = choose|k: int| 0 <= k < before.len() && before[k] == p;
                assert(all[k] == p);
            } else {
                assert(all[all.len() - 1] == p);
            }
        }
    }
}

/// The order of a change list is not significant: two lists that hold the
/// same changes, in whatever order and however often, make plans that copy
/// the same set of paths and remove the same set of paths.
pub proof fn law_plan_ignores_order(
    a: Seq<ChangeEntryView>,
    b: Seq<ChangeEntryView>,
    mount_root: Seq<char>,
    source_root: Seq<char>,
)
    requires
        forall|e: ChangeEntryView| a.contains(e) <==> b.contains(e),
    ensures
        incremental_plan(a, mount_root, source_root).sync_files.to_set() == incremental_plan(
            b,
            mount_root,
            source_root,
        ).sync_files.to_set(),
        incremental_plan(a, mount_root, source_root).deletions.to_set() == incremental_plan(
            b,
            mount_root,
            source_root,
        ).deletions.to_set(),
{
    let fa = sync_paths(a, mount_root);
    let fb = sync_paths(b, mount_root);
    let da = deletion_paths(a, mount_root);
    let db = deletion_paths(b, mount_root);
    lemma_unique(fa);
    lemma_unique(fb);
    lemma_unique(da);
    lemma_unique(db);
    assert forall|p: Seq<char>| fa.contains(p) <==> fb.contains(p) by {
        lemma_sync_paths_members(a, mount_root, p);
        lemma_sync_paths_members(b, mount_root, p);
        if asks_to_sync(a, mount_root, p) {
            let i = choose|i: int|
                0 <= i < a.len() && sync_target(#[trigger] a[i], mount_root) == Some(p);
            assert(a.contains(a[i]));
            let j = choose|j: int| 0 <= j < b.len() && b[j] == a[i];
            assert(sync_target(b[j], mount_root) == Some(p));
        }
        if asks_to_sync(b, mount_root, p) {
            let i = choose|i: int|
                0 <= i < b.len() && sync_target(#[trigger] b[i], mount_root) == Some(p);
            assert(b.contains(b[i]));
            let j = choose|j: int| 0 <= j < a.len() && a[j] == b[i];
            assert(sync_target(a[j], mount_root) == Some(p));
        }
    }
    assert forall|p: Seq<char>| da.contains(p) <==> db.contains(p) by {
        lemma_deletion_paths_members(a, mount_root, p);
        lemma_deletion_paths_members(b, mount_root, p);
        if asks_to_delete(a, mount_root, p) {
            let i = choose|i: int|
                0 <= i < a.len() && deletion_target(#[trigger] a[i], mount_root) == Some(p);
            assert(a.contains(a[i]));
            let j = choose|j: int| 0 <= j < b.len() && b[j] == a[i];
            assert(deletion_target(b[j], mount_root) == Some(p));
        }
        if asks_to_delete(b, mount_root, p) {
            let i = choose|i: int|
                0 <= i < b.len() && deletion_target(#[trigger] b[i], mount_root) == Some(p);
            assert(b.contains(b[i]));
            let j = choose|j: int| 0 <= j < a.len() && a[j] == b[i];
            assert(deletion_target(a[j], mount_root) == Some(p));
        }
    }
    assert forall|p: Seq<char>| unique(fa).to_set().contains(p) <==> unique(fb).to_set().contains(
        p,
    ) by {
        assert(unique(fa).contains(p) <==> fa.contains(p));
        assert(unique(fb).contains(p) <==> fb.contains(p));
    }
    assert forall|p: Seq<char>| unique(da).to_set().contains(p) <==> unique(db).to_set().contains(
        p,
    ) by {
        assert(unique(da).contains(p) <==> da.contains(p));
        assert(unique(db).contains(p) <==> db.contains(p));
    }
    assert(unique(fa).to_set() =~= unique(fb).to_set());
    assert(unique(da).to_set() =~= unique(db).to_set());
}

/// What is to be removed from the target and what is to be copied to it.
#[derive(Debug, PartialEq, Eq)]
pub struct TransferPlan {
    deletions: Vec<String>,
    sync_all: bool,
    sync_files: Vec<String>,
    source_root: String,
}

impl View for TransferPlan {
    type V = TransferPlanView;

    closed spec fn view(&self) -> TransferPlanView {
        TransferPlanView {
            deletions: self.deletions.deep_view(),
            sync_all: self.sync_all,
            sync_files: self.sync_files.deep_view(),
            source_root: self.source_root@,
        }
    }
}

impl TransferPlan {
    #[verifier::type_invariant]
    spec fn inv(self) -> bool {
        self@.wf()
    }

    /// The plan of a full mirror from `source_root`.
    pub fn full(source_root: String) -> (r: TransferPlan)
        ensures
            r@ == full_plan(source_root@),
    {
        let r = TransferPlan {
            deletions: Vec::new(),
            sync_all: true,
            sync_files: Vec::new(),
            source_root,
        };
        proof {
            assert(r.deletions.deep_view() =~= Seq::<Seq<char>>::empty());
            assert(r.sync_files.deep_view() =~= Seq::<Seq<char>>::empty());
        }
        r
    }

    /// The plan that a change list asks for.
    pub fn incremental(entries: &[ChangeEntry], mount_root: &str, source_root: String) -> (r:
        TransferPlan)
        ensures
            r@ == incremental_plan(entries.deep_view(), mount_root@, source_root@),
    {
        let deletions = dedup(files_to_delete(entries, mount_root));
        let sync_files = dedup(files_to_sync(entries, mount_root));
        proof {
            lemma_incremental_plan_wf(entries.deep_view(), mount_root@, source_root@);
        }
        TransferPlan { deletions, sync_all: false, sync_files, source_root }
    }

    /// The paths to remove from the target.
    pub fn deletions(&self) -> (r: &Vec<String>)
        ensures
            r.deep_view() == self@.deletions,
            self@.wf(),
    {
        proof {
            use_type_invariant(self);
        }
        &self.deletions
    }

    /// Whether the whole source root is mirrored.
    pub fn sync_all(&self) -> (r: bool)
        ensures
            r == self@.sync_all,
            self@.wf(),
    {
        proof {
            use_type_invariant(self);
        }
        self.sync_all
    }

    /// The paths to copy from the source root.
    pub fn sync_files(&self) -> (r: &Vec<String>)
        ensures
            r.deep_view() == self@.sync_files,
            self@.wf(),
    {
        proof {
            use_type_invariant(self);
        }
        &self.sync_files
    }

    /// Where the snapshot can be read.
    pub fn source_root(&self) -> (r: &String)
        ensures
            r@ == self@.source_root,
    {
        &self.source_root
    }

    /// Whether the plan asks for nothing.
    pub fn is_empty(&self) -> (r: bool)
        ensures
            r == self@.is_empty(),
    {
        !self.sync_all && self.sync_files.len() == 0 && self.deletions.len() == 0
    }
}

impl Clone for TransferPlan {
    fn clone(&self) -> (r: Self)
        ensures
            r@ == self@,
    {
        proof {
            use_type_invariant(self);
        }
        let r = TransferPlan {
            deletions: clone_paths(&self.deletions),
            sync_all: self.sync_all,
            sync_files: clone_paths(&self.sync_files),
            source_root: self.source_root.clone(),
        };
        r
    }
}

/// A copy of a list of paths.
pub fn clone_paths(paths: &Vec<String>) -> (r: Vec<String>)
    ensures
        r.deep_view() == paths.deep_view(),
{
    let mut out: Vec<String> = Vec::new();
    let mut i: usize = 0;
    while i < paths.len()
        invariant
            i <= paths@.len(),
            out@.len() == i,
            forall|j: int| 0 <= j < i ==> out@[j]@ == paths@[j]@,
        decreases paths@.len() - i,
    {
        out.push(paths[i].clone());
        i += 1;
    }
    proof {
        assert(out.deep_view() =~= paths.deep_view());
    }
    out
}

} // verus!
