//! The history of backups: an append-only log with one record at most for
//! each snapshot of each source.
use crate::source::{SourceConfig, SourceConfigView, SourceKind};
use crate::text::same_text;
use vstd::prelude::*;

verus! {

/// The fact that one snapshot of one source was mirrored.
#[derive(Debug, PartialEq, Eq)]
pub struct BackupRecord {
    pub source_kind: SourceKind,
    pub source_name: String,
    pub snapshot_id: String,
    pub target_dir: String,
    /// When the record was made, in seconds since the epoch.
    pub recorded_at: u64,
}

/// The mathematical value of a `BackupRecord`.
pub struct BackupRecordView {
    pub source_kind: SourceKind,
    pub source_name: Seq<char>,
    pub snapshot_id: Seq<char>,
    pub target_dir: Seq<char>,
    pub recorded_at: u64,
}

impl BackupRecordView {
    /// What tells one record from another: the source and the snapshot.
    pub open spec fn key(self) -> (SourceKind, Seq<char>, Seq<char>) {
        (self.source_kind, self.source_name, self.snapshot_id)
    }

    /// Whether the record is one of the source `name` of kind `kind`.
    pub open spec fn of_source(self, kind: SourceKind, name: Seq<char>) -> bool {
        self.source_kind == kind && self.source_name == name
    }
}

impl View for BackupRecord {
    type V = BackupRecordView;

    open spec fn view(&self) -> BackupRecordView {
        BackupRecordView {
            source_kind: self.source_kind,
            source_name: self.source_name@,
            snapshot_id: self.snapshot_id@,
            target_dir: self.target_dir@,
            recorded_at: self.recorded_at,
        }
    }
}

impl DeepView for BackupRecord {
    type V = BackupRecordView;

    open spec fn deep_view(&self) -> BackupRecordView {
        self@
    }
}

impl Clone for BackupRecord {
    fn clone(&self) -> (r: Self)
        ensures
            r@ == self@,
    {
        BackupRecord {
            source_kind: self.source_kind,
            source_name: self.source_name.clone(),
            snapshot_id: self.snapshot_id.clone(),
            target_dir: self.target_dir.clone(),
            recorded_at: self.recorded_at,
        }
    }
}

impl BackupRecord {
    /// Whether the record has the key made of `kind`, `name` and `snapshot`.
    pub fn has_key(&self, kind: SourceKind, name: &str, snapshot: &str) -> (r: bool)
        ensures
            r == (self@.key() == (kind, name@, snapshot@)),
    {
        self.source_kind == kind && same_text(self.source_name.as_str(), name) && same_text(
            self.snapshot_id.as_str(),
            snapshot,
        )
    }

    /// Whether the record is one of the source `name` of kind `kind`.
    pub fn is_of_source(&self, kind: SourceKind, name: &str) -> (r: bool)
        ensures
            r == self@.of_source(kind, name@),
    {
        self.source_kind == kind && same_text(self.source_name.as_str(), name)
    }
}

/// Whether a log holds a record with `key`.
pub open spec fn has_key(
    log: Seq<BackupRecordView>,
    key: (SourceKind, Seq<char>, Seq<char>),
) -> bool {
    exists|i: int| 0 <= i < log.len() && (#[trigger] log[i]).key() == key
}

/// Whether no two records of a log have the same key.
pub open spec fn unique_keys(log: Seq<BackupRecordView>) -> bool {
    forall|i: int, j: int|
        0 <= i < j < log.len() ==> (#[trigger] log[i]).key() != (#[trigger] log[j]).key()
}

/// The log after `r` is recorded: `r` stands at its end, unless its snapshot
/// was recorded for its source before. Then the log is as it was.
pub open spec fn appended(log: Seq<BackupRecordView>, r: BackupRecordView) -> Seq<
    BackupRecordView,
> {
    if has_key(log, r.key()) {
        log
    } else {
        log.push(r)
    }
}

/// Where a record made at `at` goes into a list that is ordered from the most
/// recent on: before the first record that is not more recent than it.
pub open spec fn slot(sorted: Seq<BackupRecordView>, at: u64) -> int
    decreases sorted.len(),
{
    if sorted.len() == 0 || sorted[0].recorded_at <= at {
        0
    } else {
        1 + slot(sorted.drop_first(), at)
    }
}

/// The records of one source, the most recent first. Of two records made at
/// the same time, the one that stands later in the log comes first.
pub open spec fn newest_first(log: Seq<BackupRecordView>, kind: SourceKind, name: Seq<char>) -> Seq<
    BackupRecordView,
>
    decreases log.len(),
{
    if log.len() == 0 {
        Seq::empty()
    } else {
        let before = newest_first(log.drop_last(), kind, name);
        let r = log.last();
        if r.of_source(kind, name) {
            before.insert(slot(before, r.recorded_at), r)
        } else {
            before
        }
    }
}

/// Whether a list of records is ordered from the most recent on.
pub open spec fn is_newest_first(s: Seq<BackupRecordView>) -> bool {
    forall|i: int, j: int|
        0 <= i < j < s.len() ==> (#[trigger] s[i]).recorded_at >= (#[trigger] s[j]).recorded_at
}

/// `slot` is in range, every record before it is more recent than `at`, and
/// the record at it is not.
pub proof fn lemma_slot(sorted: Seq<BackupRecordView>, at: u64)
    ensures
        0 <= slot(sorted, at) <= sorted.len(),
        forall|j: int| 0 <= j < slot(sorted, at) ==> (#[trigger] sorted[j]).recorded_at > at,
        slot(sorted, at) < sorted.len() ==> sorted[slot(sorted, at)].recorded_at <= at,
    decreases sorted.len(),
{
    if !(sorted.len() == 0 || sorted[0].recorded_at <= at) {
        let t = sorted.drop_first();
        lemma_slot(t, at);
        assert forall|j: int| 0 <= j < slot(sorted, at) implies (#[trigger] sorted[j]).recorded_at
            > at by {
            if j > 0 {
                assert(sorted[j] == t[j - 1]);
            }
        }
    }
}

/// The index that `lemma_slot` describes is the only one.
pub proof fn lemma_slot_is(sorted: Seq<BackupRecordView>, at: u64, k: int)
    requires
        0 <= k <= sorted.len(),
        forall|j: int| 0 <= j < k ==> (#[trigger] sorted[j]).recorded_at > at,
        k < sorted.len() ==> sorted[k].recorded_at <= at,
    ensures
        slot(sorted, at) == k,
{
    lemma_slot(sorted, at);
    let q = slot(sorted, at);
    if q < k {
        assert(sorted[q].recorded_at > at);
    } else if k < q {
        assert(sorted[k].recorded_at > at);
    }
}

/// The log of backups. No two of its records have the same key, and a record
/// that is in it stays where it is.
pub struct History {
    records: Vec<BackupRecord>,
}

impl View for History {
    type V = Seq<BackupRecordView>;

    closed spec fn view(&self) -> Seq<BackupRecordView> {
        self.records.deep_view()
    }
}

impl History {
    #[verifier::type_invariant]
    spec fn inv(self) -> bool {
        unique_keys(self@)
    }

    /// The empty log.
    pub fn new() -> (r: History)
        ensures
            r@ == Seq::<BackupRecordView>::empty(),
    {
        let r = History { records: Vec::new() };
        proof {
            assert(r.records.deep_view() =~= Seq::<BackupRecordView>::empty());
        }
        r
    }

    /// The number of records.
    pub fn len(&self) -> (n: usize)
        ensures
            n == self@.len(),
            unique_keys(self@),
    {
        proof {
            use_type_invariant(self);
        }
        self.records.len()
    }

    /// The record at index `i`, in the order of recording.
    pub fn get(&self, i: usize) -> (r: Option<&BackupRecord>)
        ensures
            match r {
                Some(rec) => i < self@.len() && rec@ == self@[i as int],
                None => i >= self@.len(),
            },
    {
        if i < self.records.len() {
            Some(&self.records[i])
        } else {
            None
        }
    }

    /// Whether a snapshot of a source is recorded.
    pub fn contains(&self, kind: SourceKind, name: &str, snapshot: &str) -> (r: bool)
        ensures
            r == has_key(self@, (kind, name@, snapshot@)),
    {
        let mut i: usize = 0;
        while i < self.records.len()
            invariant
                i <= self.records@.len(),
                forall|j: int|
                    0 <= j < i ==> (#[trigger] self.records.deep_view()[j]).key() != (
                        kind,
                        name@,
                        snapshot@,
                    ),
            decreases self.records@.len() - i,
        {
            if self.records[i].has_key(kind, name, snapshot) {
                proof {
                    assert(self.records.deep_view()[i as int].key() == (kind, name@, snapshot@));
                }
                return true;
            }
            i += 1;
        }
        false
    }

    /// Records a backup. Recording a snapshot that is recorded for its source
    /// already changes nothing and is no error; the result says whether the
    /// record was added.
    pub fn append(&mut self, record: BackupRecord) -> (added: bool)
        ensures
            final(self)@ == appended(old(self)@, record@),
            added == !has_key(old(self)@, record@.key()),
    {
        proof {
            use_type_invariant(&*self);
        }
        if self.contains(
            record.source_kind,
            record.source_name.as_str(),
            record.snapshot_id.as_str(),
        ) {
            false
        } else {
            let ghost before = self.records.deep_view();
            let ghost rv = record@;
            let mut taken = History::new();
            core::mem::swap(self, &mut taken);
            let mut records = taken.records;
            records.push(record);
            proof {
                assert(records.deep_view() =~= before.push(rv));
                lemma_appended_unique(before, rv);
            }
            *self = History { records };
            true
        }
    }
}

/// Recording keeps the keys of a log apart.
pub proof fn lemma_appended_unique(log: Seq<BackupRecordView>, r: BackupRecordView)
    requires
        unique_keys(log),
    ensures
        unique_keys(appended(log, r)),
{
    if !has_key(log, r.key()) {
        let l2 = log.push(r);
        assert forall|i: int, j: int| 0 <= i < j < l2.len() implies (#[trigger] l2[i]).key() != (
        #[trigger] l2[j]).key() by {
            if j < log.len() {
                assert(l2[i] == log[i] && l2[j] == log[j]);
            } else {
                assert(l2[i] == log[i]);
            }
        }
    }
}

/// The snapshots of a list of records, in its order.
pub open spec fn snapshot_ids(records: Seq<BackupRecordView>) -> Seq<Seq<char>> {
    Seq::new(records.len(), |i: int| records[i].snapshot_id)
}

/// Computes `slot`.
fn find_slot(sorted: &Vec<BackupRecord>, at: u64) -> (k: usize)
    ensures
        k == slot(sorted.deep_view(), at),
        k <= sorted@.len(),
{
    let mut k: usize = 0;
    while k < sorted.len() && sorted[k].recorded_at > at
        invariant
            k <= sorted@.len(),
            forall|j: int| 0 <= j < k ==> (#[trigger] sorted.deep_view()[j]).recorded_at > at,
        decreases sorted@.len() - k,
    {
        k += 1;
    }
    proof {
        lemma_slot_is(sorted.deep_view(), at, k as int);
    }
    k
}

impl History {
    /// The records of one source, the most recent first.
    pub fn list_by_source(&self, kind: SourceKind, name: &str) -> (r: Vec<BackupRecord>)
        ensures
            r.deep_view() == newest_first(self@, kind, name@),
    {
        let mut out: Vec<BackupRecord> = Vec::new();
        let mut i: usize = 0;
        proof {
            assert(self@.take(0) =~= Seq::<BackupRecordView>::empty());
            assert(out.deep_view() =~= Seq::<BackupRecordView>::empty());
        }
        while i < self.records.len()
            invariant
                i <= self.records@.len(),
                out.deep_view() == newest_first(self@.take(i as int), kind, name@),
            decreases self.records@.len() - i,
        {
            let ghost before = out.deep_view();
            proof {
                let t = self@.take(i + 1);
                assert(t.drop_last() =~= self@.take(i as int));
                assert(t.last() == self.records@[i as int]@);
            }
            if self.records[i].is_of_source(kind, name) {
                let k = find_slot(&out, self.records[i].recorded_at);
                let rec = self.records[i].clone();
                let ghost rv = rec@;
                out.insert(k, rec);
                proof {
                    assert(out.deep_view() =~= before.insert(k as int, rv));
                }
            }
            i += 1;
        }
        proof {
            assert(self@.take(i as int) =~= self@);
        }
        out
    }

    /// The snapshots recorded for one source, the most recent first.
    pub fn snapshots_of(&self, kind: SourceKind, name: &str) -> (r: Vec<String>)
        ensures
            r.deep_view() == snapshot_ids(newest_first(self@, kind, name@)),
    {
        let records = self.list_by_source(kind, name);
        let mut out: Vec<String> = Vec::new();
        let mut i: usize = 0;
        while i < records.len()
            invariant
                i <= records@.len(),
                out@.len() == i,
                forall|j: int| 0 <= j < i ==> out@[j]@ == records@[j]@.snapshot_id,
            decreases records@.len() - i,
        {
            out.push(records[i].snapshot_id.clone());
            i += 1;
        }
        proof {
            assert(out.deep_view() =~= snapshot_ids(records.deep_view()));
        }
        out
    }
}

/// The record that a snapshot of a source was mirrored at a time.
pub open spec fn record_of(
    source: SourceConfigView,
    snapshot: Seq<char>,
    at: u64,
) -> BackupRecordView {
    BackupRecordView {
        source_kind: source.kind,
        source_name: source.name,
        snapshot_id: snapshot,
        target_dir: source.target_dir,
        recorded_at: at,
    }
}

impl History {
    /// Records that a snapshot of a source was mirrored at a time. The result
    /// says whether the record was added.
    pub fn record(&mut self, source: &SourceConfig, snapshot: &str, at: u64) -> (added: bool)
        ensures
            final(self)@ == appended(old(self)@, record_of(source@, snapshot@, at)),
            added == !has_key(old(self)@, (source@.kind, source@.name, snapshot@)),
    {
        self.append(
            BackupRecord {
                source_kind: source.kind,
                source_name: source.name.clone(),
                snapshot_id: snapshot.to_owned(),
                target_dir: source.target_dir.clone(),
                recorded_at: at,
            },
        )
    }
}

/// Idempotence of recording: a snapshot that is recorded for a source is
/// not recorded again, whatever the second record says of time and target.
/// The log stays as it is.
pub proof fn law_append_idempotent(
    log: Seq<BackupRecordView>,
    first: BackupRecordView,
    second: BackupRecordView,
)
    requires
        first.key() == second.key(),
    ensures
        appended(appended(log, first), second) == appended(log, first),
        has_key(appended(log, first), first.key()),
{
    let l1 = appended(log, first);
    if has_key(log, first.key()) {
    } else {
        assert(l1[log.len() as int].key() == first.key());
    }
}

/// The log is append-only: recording leaves every record where it is.
pub proof fn law_append_only(log: Seq<BackupRecordView>, r: BackupRecordView)
    ensures
        log.is_prefix_of(appended(log, r)),
        appended(log, r).len() <= log.len() + 1,
{
}

/// A record that goes in at its slot leaves the list ordered.
pub proof fn lemma_insert_ordered(sorted: Seq<BackupRecordView>, r: BackupRecordView)
    requires
        is_newest_first(sorted),
    ensures
        is_newest_first(sorted.insert(slot(sorted, r.recorded_at), r)),
{
    let k = slot(sorted, r.recorded_at);
    lemma_slot(sorted, r.recorded_at);
    let all = sorted.insert(k, r);
    assert forall|i: int, j: int| 0 <= i < j < all.len() implies (#[trigger] all[i]).recorded_at
        >= (#[trigger] all[j]).recorded_at by {
        if j < k {
            assert(all[i] == sorted[i] && all[j] == sorted[j]);
        } else if j == k {
            assert(all[i] == sorted[i]);
        } else if i < k {
            assert(all[i] == sorted[i] && all[j] == sorted[j - 1]);
        } else if i == k {
            assert(all[j] == sorted[j - 1]);
            if k < j - 1 {
                assert(sorted[k].recorded_at >= sorted[j - 1].recorded_at);
            }
        } else {
            assert(all[i] == sorted[i - 1] && all[j] == sorted[j - 1]);
        }
    }
}

/// What a list holds once a record went in: the record, and what it held.
pub proof fn lemma_insert_contains(
    list: Seq<BackupRecordView>,
    k: int,
    r: BackupRecordView,
    x: BackupRecordView,
)
    requires
        0 <= k <= list.len(),
    ensures
        list.insert(k, r).contains(x) <==> x == r || list.contains(x),
{
    let all = list.insert(k, r);
    if all.contains(x) {
        let i = choose|i: int| 0 <= i < all.len() && all[i] == x;
        if i < k {
            assert(list[i] == x);
        } else if i > k {
            assert(list[i - 1] == x);
        }
    }
    if x == r {
        assert(all[k] == x);
    }
    if list.contains(x) {
        let i = choose|i: int| 0 <= i < list.len() && list[i] == x;
        if i < k {
            assert(all[i] == x);
        } else {
            assert(all[i + 1] == x);
        }
    }
}

/// What a log holds once a record is pushed: the record, and what it held.
pub proof fn lemma_push_contains(
    log: Seq<BackupRecordView>,
    r: BackupRecordView,
    x: BackupRecordView,
)
    ensures
        log.push(r).contains(x) <==> x == r || log.contains(x),
{
    let all = log.push(r);
    if all.contains(x) {
        let i = choose|i: int| 0 <= i < all.len() && all[i] == x;
        if i < log.len() {
            assert(log[i] == x);
        }
    }
    if x == r {
        assert(all[log.len() as int] == x);
    }
    if log.contains(x) {
        let i = choose|i: int| 0 <= i < log.len() && log[i] == x;
        assert(all[i] == x);
    }
}

/// What `newest_first` lists is ordered from the most recent on, and it is
/// what the log holds of the source: each of its records, and no other.
pub proof fn law_newest_first(log: Seq<BackupRecordView>, kind: SourceKind, name: Seq<char>)
    ensures
        is_newest_first(newest_first(log, kind, name)),
        forall|r: BackupRecordView|
            newest_first(log, kind, name).contains(r) <==> log.contains(r) && r.of_source(
                kind,
                name,
            ),
    decreases log.len(),
{
    if log.len() > 0 {
        let rest = log.drop_last();
        let last = log.last();
        law_newest_first(rest, kind, name);
        let before = newest_first(rest, kind, name);
        let all = newest_first(log, kind, name);
        assert(rest.push(last) =~= log);
        if last.of_source(kind, name) {
            lemma_slot(before, last.recorded_at);
            lemma_insert_ordered(before, last);
        }
        assert forall|r: BackupRecordView| all.contains(r) <==> log.contains(r) && r.of_source(
            kind,
            name,
        ) by {
            lemma_push_contains(rest, last, r);
            if last.of_source(kind, name) {
                lemma_insert_contains(before, slot(before, last.recorded_at), last, r);
            }
        }
    }
}

/// A record that is newer than all that the log holds of its source is the
/// first that `newest_first` lists once it is recorded.
pub proof fn law_latest_record_first(log: Seq<BackupRecordView>, r: BackupRecordView)
    requires
        !has_key(log, r.key()),
        forall|i: int|
            0 <= i < log.len() && (#[trigger] log[i]).of_source(r.source_kind, r.source_name)
                ==> log[i].recorded_at <= r.recorded_at,
    ensures
        newest_first(appended(log, r), r.source_kind, r.source_name).len() > 0,
        newest_first(appended(log, r), r.source_kind, r.source_name)[0] == r,
{
    let l2 = log.push(r);
    assert(l2.drop_last() =~= log);
    let before = newest_first(log, r.source_kind, r.source_name);
    law_newest_first(log, r.source_kind, r.source_name);
    lemma_slot(before, r.recorded_at);
    let k = slot(before, r.recorded_at);
    if k > 0 {
        assert(before[0].recorded_at > r.recorded_at);
        assert(before.contains(before[0]));
        assert(log.contains(before[0]));
        let q = choose|q: int| 0 <= q < log.len() && log[q] == before[0];
        assert(log[q].of_source(r.source_kind, r.source_name));
    }
}

} // verus!
