//! What a reclaimer comes to if nobody disturbs it: the same as the method of the domain that does
//! the work in one piece.
use crate::deleter::Retired;
use crate::model;
use crate::model::DomainView;
use crate::reclaimer::{Phase, ReclaimerView};
use vstd::prelude::*;

verus! {

/// What a reclaimer comes to.
#[verifier::ext_equal]
pub struct Outcome {
    /// What it leaves of the domain.
    pub domain: DomainView,
    /// What it hands out for deletion, in order.
    pub due: Seq<Retired>,
    /// How many objects it says that it has handed out.
    pub reclaimed: usize,
}

/// There are no more objects and hazard pointers than can be counted.
pub open spec fn is_countable(r: ReclaimerView, d: DomainView) -> bool {
    &&& d.hazptrs.len() <= usize::MAX
    &&& d.retired.len() + r.stolen.len() + r.kept.len() + r.in_hand().len() <= usize::MAX
}

/// The reclaimer stops right here.
pub open spec fn stop(r: ReclaimerView, d: DomainView) -> Outcome {
    Outcome { domain: d, due: Seq::empty(), reclaimed: r.reclaimed }
}

/// From where the reclaimer takes the retired objects away, or finds none.
pub open spec fn from_steal(r: ReclaimerView, d: DomainView) -> Outcome {
    if d.retired.len() == 0 {
        stop(r, d)
    } else {
        Outcome {
            domain: DomainView {
                retired: d.pass_kept(),
                retired_count: d.retired_count.wrapping_sub(d.pass_due().len() as isize),
                nbulk_reclaims: d.nbulk_reclaims.wrapping_sub(1),
                ..d
            },
            due: d.pass_due(),
            reclaimed: r.reclaimed.wrapping_add(d.pass_due().len() as usize),
        }
    }
}

/// From where the reclaimer begins its passes.
pub open spec fn from_begin(r: ReclaimerView, d: DomainView) -> Outcome {
    from_steal(r, DomainView { nbulk_reclaims: d.nbulk_reclaims.wrapping_add(1), ..d })
}

/// From where the numbers decide about a cleanup.
pub open spec fn from_counts(r: ReclaimerView, d: DomainView) -> Outcome {
    if model::threshold(d.retired_count, d.hazptr_count) {
        from_begin(r, d)
    } else {
        stop(r, d)
    }
}

/// From where the time and then the numbers decide about a cleanup.
pub open spec fn from_cleanup(r: ReclaimerView, d: DomainView, now: u64) -> Outcome {
    if d.is_timed(now) {
        from_begin(r, d.after_sync(now))
    } else {
        from_counts(r, d)
    }
}

/// From the end of a pass.
pub open spec fn from_end(r: ReclaimerView, d: DomainView) -> Outcome {
    let r = ReclaimerView { reclaimed: r.reclaimed.wrapping_add(r.reclaimed_now), ..r };
    if r.done || !r.transitive {
        stop(r, DomainView { nbulk_reclaims: d.nbulk_reclaims.wrapping_sub(1), ..d })
    } else {
        from_steal(r, d)
    }
}

/// From where the objects that are guarded are put back.
pub open spec fn from_splice(r: ReclaimerView, d: DomainView) -> Outcome {
    from_end(r, DomainView { retired: d.retired + r.kept, ..d })
}

/// From where the objects that were due are taken off the counter.
pub open spec fn from_subtract_due(r: ReclaimerView, d: DomainView) -> Outcome {
    let d = DomainView {
        retired_count: d.retired_count.wrapping_sub(r.reclaimed_now as isize),
        ..d
    };
    if r.kept.len() == 0 {
        from_end(r, d)
    } else {
        from_splice(r, d)
    }
}

/// From where the reclaimer sees whether objects were retired during the pass.
#[verifier::opaque]
pub open spec fn from_done(r: ReclaimerView, d: DomainView) -> Outcome {
    from_subtract_due(ReclaimerView { done: d.retired.len() == 0, ..r }, d)
}

/// From where the stolen objects are looked up, with these addresses guarded.
#[verifier::opaque]
pub open spec fn from_lookup(r: ReclaimerView, d: DomainView, guarded: Set<usize>) -> Outcome {
    let due = model::due_of(r.stolen, guarded);
    let kept = r.kept + model::kept_of(r.stolen, guarded);
    let reclaimed_now = (r.reclaimed_now + due.len()) as usize;
    let o = from_done(ReclaimerView { kept, reclaimed_now, ..r }, d);
    Outcome { due: due + o.due, ..o }
}

/// What an undisturbed reclaimer comes to, if the time is `now` when it looks.
pub open spec fn outcome(r: ReclaimerView, d: DomainView, now: u64) -> Outcome {
    match r.phase {
        Phase::CountRetired(obj) => from_cleanup(r, d.after_push(obj), now),
        Phase::Push(obj) => from_cleanup(
            r,
            DomainView { retired: d.retired.push(obj), ..d },
            now,
        ),
        Phase::LoadSyncTime => from_cleanup(r, d, now),
        Phase::ClaimSyncTime { seen, until } => if d.sync_time == seen {
            from_begin(r, DomainView { sync_time: until, ..d })
        } else {
            from_counts(r, d)
        },
        Phase::LoadRetiredCount => from_counts(r, d),
        Phase::LoadHazPtrCount { rc } => if model::threshold(rc, d.hazptr_count) {
            from_counts(r, d)
        } else {
            stop(r, d)
        },
        Phase::ReloadHazPtrCount => from_counts(r, d),
        Phase::ReloadRetiredCount { hc } => if model::threshold(d.retired_count, hc) {
            from_begin(r, d)
        } else {
            stop(r, d)
        },
        Phase::Begin => from_begin(r, d),
        Phase::Steal => from_steal(r, d),
        Phase::LoadHead => from_lookup(r, d, r.guarded.union(model::guarded(d.hazptrs))),
        Phase::LoadActive(n) => from_lookup(
            r,
            d,
            r.guarded.union(model::guarded_below(d.hazptrs, n as int)),
        ),
        Phase::LoadPtr(n) => from_lookup(
            r,
            d,
            r.guarded.insert(d.hazptrs[n as int].ptr).union(
                model::guarded_below(d.hazptrs, n as int),
            ),
        ),
        Phase::Lookup => from_lookup(r, d, r.guarded),
        Phase::LoadDone => from_done(r, d),
        Phase::SubtractDue => from_subtract_due(r, d),
        Phase::Splice => from_splice(r, d),
        Phase::End => from_end(r, d),
        Phase::Finished => stop(r, d),
    }
}

/// The outcome after a step, with what the step itself handed out.
pub open spec fn outcome_by_step(r: ReclaimerView, d: DomainView, now: u64) -> Outcome {
    let s = r.step(d, now);
    let o = outcome(s.reclaimer, s.domain, now);
    match s.due {
        Some(obj) => Outcome { due: seq![obj] + o.due, ..o },
        None => o,
    }
}

proof fn lemma_outcome_steal(r: ReclaimerView, d: DomainView, now: u64)
    requires
        r.phase is Steal,
        r.wf(d),
        is_countable(r, d),
    ensures
        outcome(r, d, now) == outcome_by_step(r, d, now),
{
    reveal(from_lookup);
    reveal(from_done);
    if d.retired.len() > 0 {
        let guarded = model::guarded(d.hazptrs);
        model::lemma_sort_top(d.retired, guarded);
        assert(Set::<usize>::empty().union(guarded) =~= guarded);
        assert(Seq::<Retired>::empty() + d.pass_kept() =~= d.pass_kept());
        assert(d.pass_due() + Seq::<Retired>::empty() =~= d.pass_due());
        if d.pass_kept().len() == 0 {
            assert(d.pass_kept() =~= Seq::<Retired>::empty());
        }
    }
}

/// What a reclaimer comes to after its lookups does not depend on what else it remembers.
proof fn lemma_from_done(r1: ReclaimerView, r2: ReclaimerView, d: DomainView)
    requires
        r1.kept == r2.kept,
        r1.reclaimed_now == r2.reclaimed_now,
        r1.reclaimed == r2.reclaimed,
        r1.transitive == r2.transitive,
    ensures
        from_done(r1, d) == from_done(r2, d),
{
    reveal(from_done);
}

/// What a reclaimer comes to from its lookups on, with certain addresses guarded, does not depend
/// on what it still has to read before.
proof fn lemma_from_lookup(r1: ReclaimerView, r2: ReclaimerView, d: DomainView, guarded: Set<usize>)
    requires
        r1.stolen == r2.stolen,
        r1.kept == r2.kept,
        r1.reclaimed_now == r2.reclaimed_now,
        r1.reclaimed == r2.reclaimed,
        r1.transitive == r2.transitive,
    ensures
        from_lookup(r1, d, guarded) == from_lookup(r2, d, guarded),
{
    reveal(from_lookup);
    let kept = r1.kept + model::kept_of(r1.stolen, guarded);
    let reclaimed_now = (r1.reclaimed_now + model::due_of(r1.stolen, guarded).len()) as usize;
    lemma_from_done(
        ReclaimerView { kept, reclaimed_now, ..r1 },
        ReclaimerView { kept, reclaimed_now, ..r2 },
        d,
    );
}

proof fn lemma_outcome_scan(r: ReclaimerView, d: DomainView, now: u64)
    requires
        r.phase is LoadHead || r.phase is LoadActive || r.phase is LoadPtr,
        r.wf(d),
        is_countable(r, d),
    ensures
        outcome(r, d, now) == outcome_by_step(r, d, now),
{
    let r2 = r.step(d, now).reclaimer;
    let guarded = match r.phase {
        Phase::LoadActive(n) => r.guarded.union(model::guarded_below(d.hazptrs, n as int)),
        Phase::LoadPtr(n) => r.guarded.insert(d.hazptrs[n as int].ptr).union(
            model::guarded_below(d.hazptrs, n as int),
        ),
        _ => r.guarded.union(model::guarded(d.hazptrs)),
    };
    lemma_from_lookup(r, r2, d, guarded);
    if let Phase::LoadActive(n) = r.phase {
        if n == 0 {
            assert(guarded =~= r.guarded);
        } else {
            let before = model::guarded_below(d.hazptrs, n - 1);
            if d.hazptrs[n - 1].active {
                assert(guarded =~= r.guarded.insert(d.hazptrs[n - 1].ptr).union(before));
            } else {
                assert(guarded =~= r.guarded.union(before));
            }
        }
    }
}

/// Looking the topmost object up first changes nothing about what the lookups come to.
proof fn lemma_lookup_top(r: ReclaimerView, r2: ReclaimerView, d: DomainView)
    requires
        r.stolen.len() > 0,
        r2.stolen == r.stolen.drop_last(),
        r2.reclaimed == r.reclaimed,
        r2.transitive == r.transitive,
        r.reclaimed_now + r.stolen.len() <= usize::MAX,
    ensures
        ({
            let obj = r.stolen.last();
            let o = from_lookup(r, d, r.guarded);
            let o2 = from_lookup(r2, d, r.guarded);
            &&& r.guarded.contains(obj.data_ptr) && r2.reclaimed_now == r.reclaimed_now && r2.kept
                == r.kept.push(obj) ==> o == o2
            &&& !r.guarded.contains(obj.data_ptr) && r2.reclaimed_now == r.reclaimed_now + 1
                && r2.kept == r.kept ==> o == (Outcome { due: seq![obj] + o2.due, ..o2 })
        }),
{
    reveal(from_lookup);
    let guarded = r.guarded;
    let top = seq![r.stolen.last()];
    let rest = r.stolen.drop_last();
    model::lemma_sort_top(r.stolen, guarded);
    model::lemma_sort_top(rest, guarded);
    let due = model::due_of(rest, guarded);
    let kept = model::kept_of(rest, guarded);
    let all_kept = r.kept + model::kept_of(r.stolen, guarded);
    let reclaimed_now = (r.reclaimed_now + model::due_of(r.stolen, guarded).len()) as usize;
    let end1 = ReclaimerView { kept: all_kept, reclaimed_now, ..r };
    let end2 = ReclaimerView { kept: all_kept, reclaimed_now, ..r2 };
    lemma_from_done(end1, end2, d);
    let o = from_done(end1, d);
    assert(r.kept + (top + kept) =~= r.kept.push(r.stolen.last()) + kept);
    assert((top + due) + o.due =~= top + (due + o.due));
}

proof fn lemma_outcome_lookup(r: ReclaimerView, d: DomainView, now: u64)
    requires
        r.phase is Lookup,
        r.wf(d),
        is_countable(r, d),
    ensures
        outcome(r, d, now) == outcome_by_step(r, d, now),
{
    if r.stolen.len() == 0 {
        reveal(from_lookup);
        model::lemma_sort_top(r.stolen, r.guarded);
        assert(r.kept + Seq::<Retired>::empty() =~= r.kept);
        let o = from_done(r, d);
        assert(Seq::<Retired>::empty() + o.due =~= o.due);
        lemma_from_done(r, r.at(Phase::LoadDone), d);
    } else {
        lemma_lookup_top(r, r.step(d, now).reclaimer, d);
    }
}

proof fn lemma_outcome_before(r: ReclaimerView, d: DomainView, now: u64)
    requires
        r.phase is CountRetired || r.phase is Push || r.phase is LoadSyncTime || r.phase
            is ClaimSyncTime || r.phase is LoadRetiredCount || r.phase is LoadHazPtrCount || r.phase
            is ReloadHazPtrCount || r.phase is ReloadRetiredCount || r.phase is Begin,
        r.wf(d),
        is_countable(r, d),
    ensures
        outcome(r, d, now) == outcome_by_step(r, d, now),
{
}

proof fn lemma_outcome_after(r: ReclaimerView, d: DomainView, now: u64)
    requires
        r.phase is LoadDone || r.phase is SubtractDue || r.phase is Splice || r.phase is End
            || r.phase is Finished,
        r.wf(d),
        is_countable(r, d),
    ensures
        outcome(r, d, now) == outcome_by_step(r, d, now),
{
    reveal(from_done);
}

/// A step of a reclaimer changes nothing about what it comes to.
pub proof fn law_step_keeps_outcome(r: ReclaimerView, d: DomainView, now: u64)
    requires
        r.wf(d),
        is_countable(r, d),
    ensures
        outcome(r, d, now) == outcome_by_step(r, d, now),
{
    match r.phase {
        Phase::Steal => lemma_outcome_steal(r, d, now),
        Phase::LoadHead => lemma_outcome_scan(r, d, now),
        Phase::LoadActive(_) => lemma_outcome_scan(r, d, now),
        Phase::LoadPtr(_) => lemma_outcome_scan(r, d, now),
        Phase::Lookup => lemma_outcome_lookup(r, d, now),
        Phase::LoadDone => lemma_outcome_after(r, d, now),
        Phase::SubtractDue => lemma_outcome_after(r, d, now),
        Phase::Splice => lemma_outcome_after(r, d, now),
        Phase::End => lemma_outcome_after(r, d, now),
        Phase::Finished => lemma_outcome_after(r, d, now),
        _ => lemma_outcome_before(r, d, now),
    }
}

/// Where a number of steps lead to.
#[verifier::ext_equal]
pub struct Steps {
    pub reclaimer: ReclaimerView,
    pub domain: DomainView,
    /// What the steps handed out for deletion, in order.
    pub due: Seq<Retired>,
}

/// Where `n` steps lead to if nobody disturbs them.
pub open spec fn after_steps(r: ReclaimerView, d: DomainView, now: u64, n: nat) -> Steps
    decreases n,
{
    if n == 0 {
        Steps { reclaimer: r, domain: d, due: Seq::empty() }
    } else {
        let s = r.step(d, now);
        let rest = after_steps(s.reclaimer, s.domain, now, (n - 1) as nat);
        match s.due {
            Some(obj) => Steps { due: seq![obj] + rest.due, ..rest },
            None => rest,
        }
    }
}

/// A step leaves a reclaimer that fits its domain, with everything as countable as before.
proof fn lemma_step_fits(r: ReclaimerView, d: DomainView, now: u64)
    requires
        r.wf(d),
        is_countable(r, d),
    ensures
        r.step(d, now).reclaimer.wf(r.step(d, now).domain),
        is_countable(r.step(d, now).reclaimer, r.step(d, now).domain),
{
}

/// How many passes lie ahead, counting the one that the reclaimer is in twice if it calls for
/// another.
pub open spec fn passes_ahead(r: ReclaimerView, d: DomainView) -> nat {
    match r.phase {
        Phase::LoadHead | Phase::LoadActive(_) | Phase::LoadPtr(_) | Phase::Lookup
        | Phase::LoadDone => if r.transitive && d.retired.len() > 0 {
            2
        } else {
            0
        },
        Phase::SubtractDue | Phase::Splice | Phase::End => if r.transitive && !r.done {
            2
        } else {
            0
        },
        Phase::Finished => 0,
        _ => 1,
    }
}

/// How many phases lie ahead in the same pass.
pub open spec fn phases_ahead(r: ReclaimerView) -> nat {
    match r.phase {
        Phase::CountRetired(_) => 17,
        Phase::Push(_) => 16,
        Phase::LoadSyncTime => 15,
        Phase::ClaimSyncTime { .. } => 14,
        Phase::LoadRetiredCount => 13,
        Phase::LoadHazPtrCount { .. } => 12,
        Phase::ReloadHazPtrCount => 11,
        Phase::ReloadRetiredCount { .. } => 10,
        Phase::Begin => 9,
        Phase::Steal => 8,
        Phase::LoadHead => 7,
        Phase::LoadActive(_) => 6,
        Phase::LoadPtr(_) => 6,
        Phase::Lookup => 5,
        Phase::LoadDone => 4,
        Phase::SubtractDue => 3,
        Phase::Splice => 2,
        Phase::End => 1,
        Phase::Finished => 0,
    }
}

/// How many steps lie ahead in the same phase.
pub open spec fn steps_ahead(r: ReclaimerView) -> nat {
    match r.phase {
        Phase::LoadActive(n) => 2 * n as nat,
        Phase::LoadPtr(n) => 2 * n as nat + 1,
        Phase::Lookup => r.stolen.len(),
        _ => 0,
    }
}

/// A reclaimer that nobody disturbs comes to its end, and then to its outcome. The result is how
/// many steps that takes.
pub proof fn law_undisturbed(r: ReclaimerView, d: DomainView, now: u64) -> (n: nat)
    requires
        r.wf(d),
        is_countable(r, d),
    ensures
        after_steps(r, d, now, n).reclaimer.phase is Finished,
        after_steps(r, d, now, n).reclaimer.reclaimed == outcome(r, d, now).reclaimed,
        after_steps(r, d, now, n).domain == outcome(r, d, now).domain,
        after_steps(r, d, now, n).due == outcome(r, d, now).due,
    decreases passes_ahead(r, d), phases_ahead(r), steps_ahead(r),
{
    if r.phase is Finished {
        0
    } else {
        let s = r.step(d, now);
        lemma_step_fits(r, d, now);
        law_step_keeps_outcome(r, d, now);
        lemma_step_progress(r, d, now);
        let n = law_undisturbed(s.reclaimer, s.domain, now);
        n + 1
    }
}

/// A step of a reclaimer that is not finished brings it closer to its end.
proof fn lemma_step_progress(r: ReclaimerView, d: DomainView, now: u64)
    requires
        r.wf(d),
        is_countable(r, d),
        !(r.phase is Finished),
    ensures
        ({
            let s = r.step(d, now);
            let r2 = s.reclaimer;
            decreases_to!(
                passes_ahead(r, d), phases_ahead(r), steps_ahead(r)
                    => passes_ahead(r2, s.domain), phases_ahead(r2), steps_ahead(r2)
            )
        }),
{
}

/// Retiring an object step by step comes to what the domain's `retire` does, if nobody disturbs
/// it.
pub proof fn law_undisturbed_retire(d: DomainView, obj: Retired, now: u64)
    ensures
        ({
            let o = outcome(ReclaimerView::starting(d.id, Phase::CountRetired(obj), false), d, now);
            &&& o.domain == d.after_push(obj).after_cleanup(now)
            &&& o.due == d.after_push(obj).cleanup_due(now)
        }),
{
    model::lemma_sort_top(Seq::empty(), model::guarded(d.hazptrs));
}

/// Cleaning up step by step comes to what the domain's `check_cleanup_and_reclaim` does, if nobody
/// disturbs it.
pub proof fn law_undisturbed_cleanup(d: DomainView, now: u64)
    ensures
        ({
            let o = outcome(ReclaimerView::starting(d.id, Phase::LoadSyncTime, false), d, now);
            &&& o.domain == d.after_cleanup(now)
            &&& o.due == d.cleanup_due(now)
        }),
{
    if d.retired.len() == 0 {
        model::lemma_sort_top(d.retired, model::guarded(d.hazptrs));
    }
}

/// Reclaiming step by step comes to what the domain's `bulk_reclaim` does, if nobody disturbs it.
pub proof fn law_undisturbed_bulk(d: DomainView, transitive: bool, now: u64)
    ensures
        ({
            let o = outcome(ReclaimerView::starting(d.id, Phase::Begin, transitive), d, now);
            &&& o.domain == d.after_bulk_reclaim()
            &&& o.due == d.pass_due()
            &&& d.retired.len() <= usize::MAX ==> o.reclaimed == d.pass_due().len()
        }),
{
    model::lemma_sort_top(d.retired, model::guarded(d.hazptrs));
}

} // verus!
