//! What holds of every run of the reconciliation machine, whatever the driver
//! reports.
use crate::error::{error_of, BackendFailure};
use crate::model::{
    conclude, initial, mode_of, needs_release, next, ActionView, EventView, MachineView, Mode,
    Outcome, Phase,
};
use crate::plan::{full_plan, lemma_full_plan_wf, lemma_incremental_plan_wf};
use crate::source::SourceConfigView;
use vstd::prelude::*;

verus! {

/// One step of a run: what the driver reported and what the machine asked for
/// in answer.
pub struct Exchange {
    pub event: EventView,
    pub action: ActionView,
}

/// The run of the machine from state `s` over `events`: the state it ends in
/// and the exchanges it made. An event that the machine does not wait for
/// makes no exchange.
pub open spec fn run(s: MachineView, events: Seq<EventView>) -> (MachineView, Seq<Exchange>)
    decreases events.len(),
{
    if events.len() == 0 {
        (s, Seq::empty())
    } else {
        let (s1, t) = run(s, events.drop_last());
        match next(s1, events.last()) {
            Some((s2, a)) => (s2, t.push(Exchange { event: events.last(), action: a })),
            None => (s1, t),
        }
    }
}

/// What holds of every state that the machine reaches.
pub open spec fn inv(s: MachineView) -> bool {
    &&& s.held.len() <= 2
    &&& !needs_release(s.source.kind) ==> s.held.len() == 0
    &&& match s.phase {
        Phase::CheckTarget => s.held.len() == 0,
        Phase::CheckAvailability => s.held.len() == 0,
        Phase::LookupLastRecorded => s.held.len() == 0,
        Phase::ValidateLastRecorded => s.held.len() == 0 && s.cursor < s.history.len(),
        Phase::DetermineMode => s.held.len() == 0,
        Phase::ResolveHead => s.held.len() == 0 && s.head is Some,
        Phase::ResolveBaseline => {
            &&& s.head is Some
            &&& s.baseline is Some
            &&& s.head_root is Some
            &&& s.held.len() == 1
        },
        Phase::ListChanges => s.head is Some && s.baseline is Some && s.head_root is Some,
        Phase::Delete => {
            &&& s.head is Some
            &&& s.plan is Some
            &&& s.plan->0.wf()
            &&& !s.plan->0.sync_all
            &&& s.plan->0.deletions.len() > 0
        },
        Phase::Transfer => {
            &&& s.head is Some
            &&& s.plan is Some
            &&& s.plan->0.wf()
            &&& (s.plan->0.sync_all || s.plan->0.sync_files.len() > 0)
        },
        Phase::Release => s.held.len() > 0 && (s.pending.is_backup() ==> s.head is Some),
        Phase::Record => s.held.len() == 0 && s.pending.is_backup() && s.head is Some,
        Phase::Done => s.held.len() == 0,
    }
}

/// Every step keeps `inv`.
pub proof fn lemma_next_inv(s: MachineView, e: EventView)
    requires
        inv(s),
    ensures
        match next(s, e) {
            Some((s2, a)) => inv(s2),
            None => true,
        },
{
    match s.phase {
        Phase::ResolveHead => {
            if let EventView::RootResolved(root) = e {
                lemma_full_plan_wf(root);
            }
        },
        Phase::ListChanges => {
            if let EventView::ChangesListed { entries, mount_root } = e {
                lemma_incremental_plan_wf(entries, mount_root, s.head_root->0);
            }
        },
        _ => {},
    }
}

/// Whether the plan of a state, if it has one, is well formed.
pub open spec fn plan_inv(s: MachineView) -> bool {
    s.plan is Some ==> s.plan.unwrap().wf()
}

/// Every step keeps `plan_inv`.
pub proof fn lemma_next_plan(s: MachineView, e: EventView)
    requires
        plan_inv(s),
        next(s, e) is Some,
    ensures
        plan_inv(next(s, e).unwrap().0),
{
    match s.phase {
        Phase::ResolveHead => {
            if let EventView::RootResolved(root) = e {
                lemma_full_plan_wf(root);
            }
        },
        Phase::ListChanges => {
            if let EventView::ChangesListed { entries, mount_root } = e {
                if s.head_root is Some {
                    lemma_incremental_plan_wf(
                        entries,
                        mount_root,
                        s.head_root.unwrap(),
                    );
                }
            }
        },
        _ => {},
    }
}

/// Plan exclusivity: no plan that a run from the start makes asks for a full
/// mirror and lists files too. Every plan is well formed.
pub proof fn law_plans_well_formed(source: SourceConfigView, events: Seq<EventView>)
    ensures
        ({
            let s = run(initial(source), events).0;
            s.plan is Some ==> {
                &&& s.plan.unwrap().wf()
                &&& s.plan.unwrap().sync_all ==> s.plan.unwrap().sync_files.len() == 0
            }
        }),
    decreases events.len(),
{
    if events.len() > 0 {
        law_plans_well_formed(source, events.drop_last());
        let before = run(initial(source), events.drop_last()).0;
        if next(before, events.last()) is Some {
            lemma_next_plan(before, events.last());
        }
    }
}

/// `inv` holds of every state that a run from the start reaches.
pub proof fn lemma_run_inv(source: SourceConfigView, events: Seq<EventView>)
    ensures
        inv(run(initial(source), events).0),
    decreases events.len(),
{
    if events.len() > 0 {
        lemma_run_inv(source, events.drop_last());
        lemma_next_inv(run(initial(source), events.drop_last()).0, events.last());
    }
}

/// Whether an action removes paths from the target.
pub open spec fn is_deletion(a: ActionView) -> bool {
    a is DeletePaths
}

/// Whether an action copies to the target.
pub open spec fn is_transfer(a: ActionView) -> bool {
    a is MirrorRoot || a is MirrorFileList
}

/// Whether an event reports that every path was removed.
pub open spec fn reports_clean_deletion(e: EventView) -> bool {
    match e {
        EventView::PathsDeleted { deleted, errors } => errors == 0,
        _ => false,
    }
}

/// Whether every deletion of a run was asked for before any transfer, and
/// each transfer that follows a deletion was asked for in answer to the report
/// that the deletion went through without an error.
pub open spec fn deletions_first(t: Seq<Exchange>) -> bool {
    forall|i: int, j: int|
        0 <= i < t.len() && 0 <= j < t.len() && is_deletion(#[trigger] t[i].action)
            && is_transfer(#[trigger] t[j].action) ==> j == i + 1 && reports_clean_deletion(
            t[j].event,
        )
}

/// Whether a run asked for one deletion at most and for one transfer at
/// most.
pub open spec fn acts_once(t: Seq<Exchange>) -> bool {
    &&& forall|i: int, j: int|
        0 <= i < t.len() && 0 <= j < t.len() && is_deletion(#[trigger] t[i].action)
            && is_deletion(#[trigger] t[j].action) ==> i == j
    &&& forall|i: int, j: int|
        0 <= i < t.len() && 0 <= j < t.len() && is_transfer(#[trigger] t[i].action)
            && is_transfer(#[trigger] t[j].action) ==> i == j
}

/// Whether a phase comes before the plan is applied.
pub open spec fn before_apply(p: Phase) -> bool {
    match p {
        Phase::CheckTarget => true,
        Phase::CheckAvailability => true,
        Phase::LookupLastRecorded => true,
        Phase::ValidateLastRecorded => true,
        Phase::DetermineMode => true,
        Phase::ResolveHead => true,
        Phase::ResolveBaseline => true,
        Phase::ListChanges => true,
        _ => false,
    }
}

/// What a run keeps so that `deletions_first` holds of it.
pub open spec fn ordering_inv(s: MachineView, t: Seq<Exchange>) -> bool {
    &&& deletions_first(t)
    &&& acts_once(t)
    &&& before_apply(s.phase) ==> forall|i: int|
        0 <= i < t.len() ==> !is_deletion(#[trigger] t[i].action) && !is_transfer(t[i].action)
    &&& s.phase == Phase::Delete ==> {
        &&& forall|i: int| 0 <= i < t.len() ==> !is_transfer(#[trigger] t[i].action)
        &&& forall|i: int|
            0 <= i < t.len() && is_deletion(#[trigger] t[i].action) ==> i == t.len() - 1
    }
}

/// Every step keeps `ordering_inv`.
pub proof fn lemma_next_ordering(s: MachineView, t: Seq<Exchange>, e: EventView)
    requires
        inv(s),
        ordering_inv(s, t),
        next(s, e) is Some,
    ensures
        ordering_inv(
            next(s, e).unwrap().0,
            t.push(Exchange { event: e, action: next(s, e).unwrap().1 }),
        ),
{
    let s2 = next(s, e).unwrap().0;
    let a = next(s, e).unwrap().1;
    let t2 = t.push(Exchange { event: e, action: a });
    assert forall|i: int| 0 <= i < t.len() implies t2[i] == t[i] by {}
    assert(t2[t.len() as int].action == a);
    assert(t2[t.len() as int].event == e);
}

/// Delete before sync: in every run from the start, whatever is reported,
/// each deletion is asked for before any transfer, and a transfer that follows
/// a deletion is asked for only in answer to the report that the deletion
/// went through without an error. A run asks for one deletion and for one
/// transfer at most.
pub proof fn law_deletions_before_transfers(source: SourceConfigView, events: Seq<EventView>)
    ensures
        deletions_first(run(initial(source), events).1),
        acts_once(run(initial(source), events).1),
{
    lemma_run_ordering(source, events);
}

/// `ordering_inv` holds along every run from the start.
pub proof fn lemma_run_ordering(source: SourceConfigView, events: Seq<EventView>)
    ensures
        ordering_inv(run(initial(source), events).0, run(initial(source), events).1),
    decreases events.len(),
{
    if events.len() > 0 {
        let before = run(initial(source), events.drop_last());
        lemma_run_ordering(source, events.drop_last());
        lemma_run_inv(source, events.drop_last());
        if next(before.0, events.last()) is Some {
            lemma_next_ordering(before.0, before.1, events.last());
        }
    }
}

/// The roots that the driver reported, in the order of the run.
pub open spec fn resolved_roots(t: Seq<Exchange>) -> Seq<Seq<char>>
    decreases t.len(),
{
    if t.len() == 0 {
        Seq::empty()
    } else {
        let before = resolved_roots(t.drop_last());
        match t.last().event {
            EventView::RootResolved(r) => before.push(r),
            _ => before,
        }
    }
}

/// The roots that the machine asked to release, in the order of the run.
pub open spec fn released_roots(t: Seq<Exchange>) -> Seq<Seq<char>>
    decreases t.len(),
{
    if t.len() == 0 {
        Seq::empty()
    } else {
        let before = released_roots(t.drop_last());
        match t.last().action {
            ActionView::ReleaseRoot(r) => before.push(r),
            _ => before,
        }
    }
}

/// What a run keeps of the roots: those reported are those still held,
/// followed by those that the machine asked to release, last first. While the
/// machine waits for a release, the root it asked about is still in `held`.
pub open spec fn release_inv(source: SourceConfigView, s: MachineView, t: Seq<Exchange>) -> bool {
    &&& s.source == source
    &&& needs_release(source.kind) ==> balanced(
        if s.phase == Phase::Release {
            s.held.drop_last()
        } else {
            s.held
        },
        t,
    )
    &&& !needs_release(source.kind) ==> released_roots(t).len() == 0
    &&& before_apply(s.phase) ==> released_roots(t).len() == 0
}

/// The roots reported are `held`, followed by those that the machine asked to
/// release, last first.
pub open spec fn balanced(held: Seq<Seq<char>>, t: Seq<Exchange>) -> bool {
    resolved_roots(t) == held + released_roots(t).reverse()
}

/// Ending a run keeps the roots balanced: the root that is asked to be
/// released moves from those held to those released.
pub proof fn lemma_conclude_release(
    source: SourceConfigView,
    s: MachineView,
    t: Seq<Exchange>,
    e: EventView,
    o: Outcome,
)
    requires
        s.source == source,
        !(e is RootResolved),
        needs_release(source.kind) ==> balanced(s.held, t),
        !needs_release(source.kind) ==> s.held.len() == 0 && released_roots(t).len() == 0,
    ensures
        release_inv(
            source,
            conclude(s, o).0,
            t.push(Exchange { event: e, action: conclude(s, o).1 }),
        ),
{
    let s2 = conclude(s, o).0;
    let a = conclude(s, o).1;
    let t2 = t.push(Exchange { event: e, action: a });
    assert(t2.drop_last() =~= t);
    assert(t2.last() == Exchange { event: e, action: a });
    let rel = released_roots(t);
    if s.held.len() > 0 {
        let r = s.held.last();
        let rest = s.held.drop_last();
        assert(rel.push(r).reverse() =~= seq![r] + rel.reverse());
        assert(rest + (seq![r] + rel.reverse()) =~= s.held + rel.reverse());
    }
}

/// Every step keeps `release_inv`.
pub proof fn lemma_next_release(
    source: SourceConfigView,
    s: MachineView,
    t: Seq<Exchange>,
    e: EventView,
)
    requires
        inv(s),
        release_inv(source, s, t),
        next(s, e) is Some,
    ensures
        release_inv(
            source,
            next(s, e).unwrap().0,
            t.push(Exchange { event: e, action: next(s, e).unwrap().1 }),
        ),
{
    let s2 = next(s, e).unwrap().0;
    let a = next(s, e).unwrap().1;
    let t2 = t.push(Exchange { event: e, action: a });
    assert(t2.drop_last() =~= t);
    assert(t2.last() == Exchange { event: e, action: a });
    let rel = released_roots(t);
    match e {
        EventView::RootResolved(x) => {
            if needs_release(source.kind) {
                assert(rel.reverse() =~= Seq::<Seq<char>>::empty());
                assert(s.held.push(x) + rel.reverse() =~= (s.held + rel.reverse()).push(x));
            }
        },
        _ => {
            assert forall|s1: MachineView, o: Outcome|
                s1.source == source && s1.held == (if s.phase == Phase::Release {
                    s.held.drop_last()
                } else {
                    s.held
                }) implies release_inv(
                source,
                (#[trigger] conclude(s1, o)).0,
                t.push(Exchange { event: e, action: conclude(s1, o).1 }),
            ) by {
                lemma_conclude_release(source, s1, t, e, o);
            }
        },
    }
}

/// `release_inv` holds along every run from the start.
pub proof fn lemma_run_release(source: SourceConfigView, events: Seq<EventView>)
    ensures
        release_inv(source, run(initial(source), events).0, run(initial(source), events).1),
    decreases events.len(),
{
    if events.len() > 0 {
        let before = run(initial(source), events.drop_last());
        lemma_run_release(source, events.drop_last());
        lemma_run_inv(source, events.drop_last());
        if next(before.0, events.last()) is Some {
            lemma_next_release(source, before.0, before.1, events.last());
        }
    } else {
        assert(Seq::<Seq<char>>::empty().reverse() =~= Seq::<Seq<char>>::empty());
    }
}

/// Release under failure: whichever way a run from the start ends, once it
/// has ended the roots that the machine asked to release are the roots that
/// were reported to it, each once, the last reported first. A source whose
/// roots need no release is never asked to release one.
pub proof fn law_roots_released(source: SourceConfigView, events: Seq<EventView>)
    ensures
        ({
            let (s, t) = run(initial(source), events);
            &&& needs_release(source.kind) && s.phase == Phase::Done ==> resolved_roots(t)
                == released_roots(t).reverse()
            &&& !needs_release(source.kind) ==> released_roots(t).len() == 0
        }),
{
    lemma_run_release(source, events);
    lemma_run_inv(source, events);
    let (s, t) = run(initial(source), events);
    if needs_release(source.kind) && s.phase == Phase::Done {
        assert(s.held + released_roots(t).reverse() =~= released_roots(t).reverse());
    }
}

/// The snapshots that the machine asked to record, in the order of the run.
pub open spec fn recorded(t: Seq<Exchange>) -> Seq<Seq<char>>
    decreases t.len(),
{
    if t.len() == 0 {
        Seq::empty()
    } else {
        let before = recorded(t.drop_last());
        match t.last().action {
            ActionView::Record(snapshot) => before.push(snapshot),
            _ => before,
        }
    }
}

/// Whether a run asked for nothing that changes the target.
pub open spec fn target_untouched(t: Seq<Exchange>) -> bool {
    forall|i: int|
        0 <= i < t.len() ==> !is_deletion(#[trigger] t[i].action) && !is_transfer(t[i].action)
}

/// Whether an outcome is one of the two that leave everything as it is.
pub open spec fn is_skip(o: Outcome) -> bool {
    o == Outcome::UpToDate || o == Outcome::Unchanged
}

/// What a run keeps of its records and of its end.
pub open spec fn record_inv(s: MachineView, t: Seq<Exchange>) -> bool {
    &&& s.phase != Phase::Record && s.phase != Phase::Done ==> recorded(t).len() == 0
    &&& s.phase != Phase::Done ==> forall|i: int|
        0 <= i < t.len() ==> !(#[trigger] t[i].action is Finish)
    &&& before_apply(s.phase) ==> target_untouched(t)
    &&& s.phase == Phase::Release && is_skip(s.pending) ==> target_untouched(t)
    &&& s.phase == Phase::Record ==> recorded(t) == seq![s.head.unwrap()]
    &&& s.phase == Phase::Done ==> {
        &&& t.len() > 0
        &&& t.last().action == ActionView::Finish(s.pending)
        &&& forall|i: int| 0 <= i < t.len() - 1 ==> !(#[trigger] t[i].action is Finish)
        &&& recorded(t).len() <= 1
        &&& s.pending.is_backup() ==> {
            &&& s.head is Some
            &&& recorded(t) == seq![s.head.unwrap()]
            &&& t.last().event == EventView::Recorded
        }
        &&& is_skip(s.pending) ==> recorded(t).len() == 0 && target_untouched(t)
    }
}

/// Every step keeps `record_inv`.
pub proof fn lemma_next_record(s: MachineView, t: Seq<Exchange>, e: EventView)
    requires
        inv(s),
        record_inv(s, t),
        next(s, e) is Some,
    ensures
        record_inv(
            next(s, e).unwrap().0,
            t.push(Exchange { event: e, action: next(s, e).unwrap().1 }),
        ),
{
    let s2 = next(s, e).unwrap().0;
    let a = next(s, e).unwrap().1;
    let t2 = t.push(Exchange { event: e, action: a });
    assert(t2.drop_last() =~= t);
    assert(t2.last() == Exchange { event: e, action: a });
    assert forall|i: int| 0 <= i < t.len() implies t2[i] == t[i] by {}
    match a {
        ActionView::Record(snapshot) => {
            assert(recorded(t).push(snapshot) =~= seq![snapshot]);
        },
        _ => {},
    }
}

/// `record_inv` holds along every run from the start.
pub proof fn lemma_run_record(source: SourceConfigView, events: Seq<EventView>)
    ensures
        record_inv(run(initial(source), events).0, run(initial(source), events).1),
    decreases events.len(),
{
    if events.len() > 0 {
        let before = run(initial(source), events.drop_last());
        lemma_run_record(source, events.drop_last());
        lemma_run_inv(source, events.drop_last());
        if next(before.0, events.last()) is Some {
            lemma_next_record(before.0, before.1, events.last());
        }
    }
}

/// One record for each backup, none for a skip: once a run from the start
/// has ended, its last action reports the outcome, and no earlier one does.
/// Where the outcome is a backup, the machine asked exactly once for a
/// record, that of the newest snapshot, and was told that it was written.
/// Where the outcome is one of the two skips, the machine asked for no
/// record, no deletion and no transfer. However a run ends, it asks for one
/// record at most.
pub proof fn law_record_once(source: SourceConfigView, events: Seq<EventView>)
    ensures
        ({
            let (s, t) = run(initial(source), events);
            &&& recorded(t).len() <= 1
            &&& s.phase == Phase::Done ==> {
                &&& t.len() > 0
                &&& t.last().action == ActionView::Finish(s.pending)
                &&& forall|i: int| 0 <= i < t.len() - 1 ==> !(#[trigger] t[i].action is Finish)
                &&& s.pending.is_backup() ==> {
                    &&& s.head is Some
                    &&& recorded(t) == seq![s.head.unwrap()]
                    &&& t.last().event == EventView::Recorded
                }
                &&& is_skip(s.pending) ==> recorded(t).len() == 0 && target_untouched(t)
            }
        }),
{
    lemma_run_record(source, events);
}

/// The snapshots that the machine asked about, in the order of the run.
pub open spec fn checked(t: Seq<Exchange>) -> Seq<Seq<char>>
    decreases t.len(),
{
    if t.len() == 0 {
        Seq::empty()
    } else {
        let before = checked(t.drop_last());
        match t.last().action {
            ActionView::CheckExistence(snapshot) => before.push(snapshot),
            _ => before,
        }
    }
}

/// How often the driver reported that a snapshot exists.
pub open spec fn confirmations(t: Seq<Exchange>) -> nat
    decreases t.len(),
{
    if t.len() == 0 {
        0
    } else {
        let before = confirmations(t.drop_last());
        if t.last().event == EventView::ExistenceChecked(true) {
            before + 1
        } else {
            before
        }
    }
}

/// Whether a phase comes after the baseline is settled.
pub open spec fn baseline_settled(p: Phase) -> bool {
    match p {
        Phase::CheckTarget => false,
        Phase::CheckAvailability => false,
        Phase::LookupLastRecorded => false,
        Phase::ValidateLastRecorded => false,
        _ => true,
    }
}

/// What a run keeps of the walk through the recorded snapshots.
pub open spec fn walk_inv(s: MachineView, t: Seq<Exchange>) -> bool {
    match s.phase {
        Phase::CheckTarget | Phase::CheckAvailability | Phase::LookupLastRecorded => {
            &&& checked(t).len() == 0
            &&& confirmations(t) == 0
            &&& s.baseline is None
            &&& s.history.len() == 0
        },
        Phase::ValidateLastRecorded => {
            &&& checked(t) == s.history.take(s.cursor as int + 1)
            &&& confirmations(t) == 0
            &&& s.baseline is None
        },
        Phase::DetermineMode | Phase::ResolveHead | Phase::ResolveBaseline | Phase::ListChanges
        | Phase::Delete | Phase::Transfer | Phase::Record => walk_settled(s, t),
        Phase::Release | Phase::Done => walk_settled(s, t) || {
            &&& checked(t).len() == 0
            &&& confirmations(t) == 0
            &&& s.baseline is None
            &&& s.history.len() == 0
        },
    }
}

/// How the walk ended: with a baseline, which is the last snapshot asked
/// about and the only one confirmed, or without one, every recorded snapshot
/// asked about and none confirmed. Either way the snapshots asked about are
/// the recorded ones from the most recent on, in order.
pub open spec fn walk_settled(s: MachineView, t: Seq<Exchange>) -> bool {
    match s.baseline {
        Some(b) => {
            &&& 0 < checked(t).len() <= s.history.len()
            &&& checked(t) == s.history.take(checked(t).len() as int)
            &&& b == checked(t).last()
            &&& confirmations(t) == 1
        },
        None => checked(t) == s.history && confirmations(t) == 0,
    }
}

/// Every step keeps `walk_inv`.
pub proof fn lemma_next_walk(s: MachineView, t: Seq<Exchange>, e: EventView)
    requires
        inv(s),
        walk_inv(s, t),
        next(s, e) is Some,
    ensures
        walk_inv(
            next(s, e).unwrap().0,
            t.push(Exchange { event: e, action: next(s, e).unwrap().1 }),
        ),
{
    let s2 = next(s, e).unwrap().0;
    let a = next(s, e).unwrap().1;
    let t2 = t.push(Exchange { event: e, action: a });
    assert(t2.drop_last() =~= t);
    assert(t2.last() == Exchange { event: e, action: a });
    match s.phase {
        Phase::LookupLastRecorded => {
            match e {
                EventView::HistoryListed(h) => {
                    if h.len() > 0 {
                        assert(checked(t2) =~= h.take(1));
                    } else {
                        assert(checked(t2) =~= h);
                    }
                },
                _ => {
                    assert(checked(t2) =~= s.history);
                },
            }
        },
        Phase::ValidateLastRecorded => {
            let h = s.history;
            let c = s.cursor as int;
            if e == EventView::ExistenceChecked(true) {
                assert(checked(t2) == h.take(c + 1));
                assert(h.take(c + 1).last() == h[c]);
            } else {
                if c + 1 < h.len() {
                    assert(h.take(c + 1).push(h[c + 1]) =~= h.take(c + 2));
                } else {
                    assert(h.take(c + 1) =~= h);
                }
            }
        },
        _ => {
            if checked(t).len() == 0 && s.history.len() == 0 {
                assert(checked(t) =~= s.history);
            }
        },
    }
}

/// `walk_inv` holds along every run from the start.
pub proof fn lemma_run_walk(source: SourceConfigView, events: Seq<EventView>)
    ensures
        walk_inv(run(initial(source), events).0, run(initial(source), events).1),
    decreases events.len(),
{
    if events.len() > 0 {
        let before = run(initial(source), events.drop_last());
        lemma_run_walk(source, events.drop_last());
        lemma_run_inv(source, events.drop_last());
        if next(before.0, events.last()) is Some {
            lemma_next_walk(before.0, before.1, events.last());
        }
    }
}

/// The validation walk: in every run from the start, the snapshots that the
/// machine asks about are the recorded ones from the most recent on, in
/// order and without a gap, and at most one of them is confirmed. Where the
/// run has a baseline, it is the last snapshot asked about and the one that
/// was confirmed; nothing older was asked about. Where the baseline is
/// settled and there is none, every recorded snapshot was asked about and
/// none was confirmed.
pub proof fn law_validation_walk(source: SourceConfigView, events: Seq<EventView>)
    ensures
        ({
            let (s, t) = run(initial(source), events);
            &&& checked(t).len() <= s.history.len()
            &&& checked(t) == s.history.take(checked(t).len() as int)
            &&& confirmations(t) <= 1
            &&& match s.baseline {
                Some(b) => {
                    &&& checked(t).len() > 0
                    &&& b == checked(t).last()
                    &&& confirmations(t) == 1
                },
                None => {
                    &&& confirmations(t) == 0
                    &&& baseline_settled(s.phase) ==> checked(t) == s.history
                },
            }
        }),
{
    lemma_run_walk(source, events);
    lemma_run_inv(source, events);
    let (s, t) = run(initial(source), events);
    if checked(t).len() == 0 {
        assert(s.history.take(0) =~= checked(t));
    }
    if checked(t) == s.history {
        assert(s.history.take(s.history.len() as int) =~= s.history);
    }
}

/// Whether an outcome is the one that a mode ends in where nothing fails.
pub open spec fn outcome_fits(o: Outcome, m: Mode) -> bool {
    match o {
        Outcome::UpToDate => m == Mode::Skip,
        Outcome::FullBackup => m == Mode::Full,
        Outcome::IncrementalBackup => m == Mode::Incremental,
        Outcome::Unchanged => m == Mode::Incremental,
        Outcome::Failed(_) => true,
    }
}

/// What a run keeps of the mode that the baseline and the newest snapshot
/// call for.
pub open spec fn mode_inv(s: MachineView) -> bool {
    match s.phase {
        Phase::ResolveHead => s.head is Some && mode_of(s.baseline, s.head.unwrap())
            != Mode::Skip,
        Phase::ResolveBaseline | Phase::ListChanges => s.head is Some && mode_of(
            s.baseline,
            s.head.unwrap(),
        ) == Mode::Incremental,
        Phase::Delete | Phase::Transfer => {
            &&& s.head is Some
            &&& s.plan is Some
            &&& mode_of(s.baseline, s.head.unwrap()) == if s.plan.unwrap().sync_all {
                Mode::Full
            } else {
                Mode::Incremental
            }
        },
        Phase::Release | Phase::Record | Phase::Done => s.pending is Failed || (s.head is Some
            && outcome_fits(s.pending, mode_of(s.baseline, s.head.unwrap()))),
        _ => true,
    }
}

/// Every step keeps `mode_inv`.
pub proof fn lemma_next_mode(s: MachineView, e: EventView)
    requires
        inv(s),
        mode_inv(s),
        next(s, e) is Some,
    ensures
        mode_inv(next(s, e).unwrap().0),
{
}

/// `mode_inv` holds along every run from the start.
pub proof fn lemma_run_mode(source: SourceConfigView, events: Seq<EventView>)
    ensures
        mode_inv(run(initial(source), events).0),
    decreases events.len(),
{
    if events.len() > 0 {
        let before = run(initial(source), events.drop_last());
        lemma_run_mode(source, events.drop_last());
        lemma_run_inv(source, events.drop_last());
        if next(before.0, events.last()) is Some {
            lemma_next_mode(before.0, events.last());
        }
    }
}

/// Mode selection, of whole runs: once a run from the start has ended
/// without a failure, its outcome is the one that its baseline and the newest
/// snapshot call for. Without a baseline the source was mirrored in full;
/// with the newest snapshot as baseline nothing was done; with another
/// baseline the changes were transferred, or there were none.
pub proof fn law_outcome_fits_mode(source: SourceConfigView, events: Seq<EventView>)
    ensures
        ({
            let s = run(initial(source), events).0;
            s.phase == Phase::Done && !(s.pending is Failed) ==> s.head is Some && outcome_fits(
                s.pending,
                mode_of(s.baseline, s.head.unwrap()),
            )
        }),
{
    lemma_run_mode(source, events);
}

/// Mode selection, of the step that decides: a machine that waits for the
/// newest snapshot and is told `head` ends at once where `head` is the
/// baseline, and else asks for a root of `head`.
pub proof fn law_mode_selection(s: MachineView, head: Seq<char>)
    requires
        s.phase == Phase::DetermineMode,
    ensures
        ({
            let r = next(s, EventView::HeadListed(Some(head)));
            &&& r is Some
            &&& r.unwrap().0.head == Some(head)
            &&& r.unwrap().0.baseline == s.baseline
            &&& mode_of(s.baseline, head) == Mode::Skip ==> r.unwrap().0.phase == Phase::Done
                && r.unwrap().1 == ActionView::Finish(Outcome::UpToDate)
            &&& mode_of(s.baseline, head) != Mode::Skip ==> r.unwrap().0.phase
                == Phase::ResolveHead && r.unwrap().1 == ActionView::ResolveRoot(head)
        }),
{
}

/// A full backup mirrors the root: a machine without a baseline that waits
/// for the root of the newest snapshot and is told `root` plans a full mirror
/// of it and asks for that at once.
pub proof fn law_full_mirrors_root(s: MachineView, root: Seq<char>)
    requires
        s.phase == Phase::ResolveHead,
        s.baseline is None,
    ensures
        ({
            let r = next(s, EventView::RootResolved(root));
            &&& r is Some
            &&& r.unwrap().0.plan == Some(full_plan(root))
            &&& r.unwrap().0.phase == Phase::Transfer
            &&& r.unwrap().1 == ActionView::MirrorRoot(root)
        }),
{
}

/// A failure while roots are held is answered with the release of the root
/// resolved last, not with the end of the run.
pub proof fn law_failure_releases_first(s: MachineView, f: BackendFailure)
    requires
        s.held.len() > 0,
        s.phase == Phase::ResolveBaseline || s.phase == Phase::ListChanges || s.phase
            == Phase::Delete || s.phase == Phase::Transfer,
    ensures
        ({
            let r = next(s, EventView::Failed(f));
            &&& r is Some
            &&& r.unwrap().0.phase == Phase::Release
            &&& r.unwrap().0.held == s.held
            &&& r.unwrap().0.pending == Outcome::Failed(error_of(f))
            &&& r.unwrap().1 == ActionView::ReleaseRoot(s.held.last())
        }),
{
}

/// Whether an event reports that a part of a plan was applied without an
/// error: the transfer, or the deletions.
pub open spec fn reports_applied(e: EventView) -> bool {
    e == EventView::Transferred || reports_clean_deletion(e)
}

/// Whether some part of a plan was reported as applied in a run.
pub open spec fn applied(t: Seq<Exchange>) -> bool {
    exists|i: int| 0 <= i < t.len() && reports_applied(#[trigger] t[i].event)
}

/// What a run keeps so that nothing is recorded before a plan is applied.
pub open spec fn applied_inv(s: MachineView, t: Seq<Exchange>) -> bool {
    &&& recorded(t).len() > 0 ==> applied(t)
    &&& (s.phase == Phase::Release || s.phase == Phase::Record || s.phase == Phase::Done)
        && s.pending.is_backup() ==> applied(t)
}

/// Every step keeps `applied_inv`.
pub proof fn lemma_next_applied(s: MachineView, t: Seq<Exchange>, e: EventView)
    requires
        inv(s),
        record_inv(s, t),
        applied_inv(s, t),
        next(s, e) is Some,
    ensures
        applied_inv(
            next(s, e).unwrap().0,
            t.push(Exchange { event: e, action: next(s, e).unwrap().1 }),
        ),
{
    let s2 = next(s, e).unwrap().0;
    let a = next(s, e).unwrap().1;
    let t2 = t.push(Exchange { event: e, action: a });
    assert(t2.drop_last() =~= t);
    assert(t2.last() == Exchange { event: e, action: a });
    if applied(t) {
        let i = choose|i: int| 0 <= i < t.len() && reports_applied(#[trigger] t[i].event);
        assert(t2[i] == t[i]);
        assert(reports_applied(t2[i].event));
    }
    if reports_applied(e) {
        assert(reports_applied(t2[t.len() as int].event));
    }
}

/// `applied_inv` holds along every run from the start.
pub proof fn lemma_run_applied(source: SourceConfigView, events: Seq<EventView>)
    ensures
        applied_inv(run(initial(source), events).0, run(initial(source), events).1),
    decreases events.len(),
{
    if events.len() > 0 {
        let before = run(initial(source), events.drop_last());
        lemma_run_applied(source, events.drop_last());
        lemma_run_record(source, events.drop_last());
        lemma_run_inv(source, events.drop_last());
        if next(before.0, events.last()) is Some {
            lemma_next_applied(before.0, before.1, events.last());
        }
    }
}

/// A record follows an applied plan: in every run from the start, the machine
/// asks for a record only after it was told that the transfer went through,
/// or that the deletions did without an error.
pub proof fn law_record_after_apply(source: SourceConfigView, events: Seq<EventView>)
    ensures
        recorded(run(initial(source), events).1).len() > 0 ==> applied(
            run(initial(source), events).1,
        ),
{
    lemma_run_applied(source, events);
}

/// How many exchanges a run can have made at most when it waits in a phase,
/// not counting those of the validation walk and of the releases.
pub open spec fn steps_before(p: Phase) -> nat {
    match p {
        Phase::CheckTarget => 0,
        Phase::CheckAvailability => 1,
        Phase::LookupLastRecorded => 2,
        Phase::ValidateLastRecorded => 3,
        Phase::DetermineMode => 3,
        Phase::ResolveHead => 4,
        Phase::ResolveBaseline => 5,
        Phase::ListChanges => 6,
        Phase::Delete => 7,
        Phase::Transfer => 8,
        Phase::Release => 9,
        Phase::Record => 11,
        Phase::Done => 12,
    }
}

/// What a run keeps of its length.
pub open spec fn length_inv(s: MachineView, t: Seq<Exchange>) -> bool {
    match s.phase {
        Phase::CheckTarget => t.len() <= steps_before(s.phase),
        Phase::CheckAvailability => t.len() <= steps_before(s.phase),
        Phase::LookupLastRecorded => t.len() <= steps_before(s.phase),
        Phase::ValidateLastRecorded => t.len() <= steps_before(s.phase) + s.cursor,
        Phase::Release => t.len() + s.held.len() <= steps_before(s.phase) + s.history.len() + 2,
        _ => t.len() <= steps_before(s.phase) + s.history.len(),
    }
}

/// Every step keeps `length_inv`.
pub proof fn lemma_next_length(s: MachineView, t: Seq<Exchange>, e: EventView)
    requires
        inv(s),
        length_inv(s, t),
        next(s, e) is Some,
    ensures
        length_inv(
            next(s, e).unwrap().0,
            t.push(Exchange { event: e, action: next(s, e).unwrap().1 }),
        ),
{
}

/// Every run ends: a run from the start makes twelve exchanges at most
/// besides one for each recorded snapshot that it asks about. The machine
/// asks for nothing twice, whatever fails.
pub proof fn law_runs_are_bounded(source: SourceConfigView, events: Seq<EventView>)
    ensures
        run(initial(source), events).1.len() <= run(initial(source), events).0.history.len()
            + 12,
        length_inv(run(initial(source), events).0, run(initial(source), events).1),
    decreases events.len(),
{
    if events.len() > 0 {
        let before = run(initial(source), events.drop_last());
        law_runs_are_bounded(source, events.drop_last());
        lemma_run_inv(source, events.drop_last());
        if next(before.0, events.last()) is Some {
            lemma_next_length(before.0, before.1, events.last());
        }
    }
    lemma_run_inv(source, events);
}

/// The machine is never stuck: while a run has not ended there is something
/// that the machine waits for. It takes the state of the target where it
/// waits for that, and in every other phase the report of a failure.
pub proof fn law_never_stuck(s: MachineView, f: BackendFailure)
    requires
        inv(s),
        s.phase != Phase::Done,
    ensures
        s.phase == Phase::CheckTarget ==> next(
            s,
            EventView::TargetChecked { exists: true, is_dir: true },
        ) is Some,
        s.phase != Phase::CheckTarget ==> next(s, EventView::Failed(f)) is Some,
{
}

} // verus!
