//! How a transitive reclaimer ends when deleters retire objects between its steps.
use crate::deleter::Retired;
use crate::exact;
use crate::model;
use crate::model::DomainView;
use crate::reclaimer::{Phase, ReclaimerView};
use crate::undisturbed;
use vstd::prelude::*;

verus! {

/// A reclaimer whose steps nobody disturbs but the deleters of the objects that they hand out.
pub struct Run {
    pub reclaimer: ReclaimerView,
    pub domain: DomainView,
    /// What the deleters to come leave of the domain, in order. Those after them leave it alone.
    pub left: Seq<DomainView>,
}

impl Run {
    /// The run after the next step, and after the deleter of what that hands out.
    pub open spec fn step(self, now: u64) -> Run {
        let s = self.reclaimer.step(self.domain, now);
        if s.due is Some && self.left.len() > 0 {
            Run {
                reclaimer: s.reclaimer,
                domain: self.left.first(),
                left: self.left.drop_first(),
            }
        } else {
            Run { reclaimer: s.reclaimer, domain: s.domain, left: self.left }
        }
    }

    /// The run after so many steps.
    pub open spec fn after(self, now: u64, n: nat) -> Run
        decreases n,
    {
        if n == 0 {
            self
        } else {
            self.step(now).after(now, (n - 1) as nat)
        }
    }

    /// The deleters retire and reclaim what they like, but leave the hazard pointers alone.
    pub open spec fn leaves_hazptrs(self) -> bool {
        &&& self.domain.hazptrs.len() <= usize::MAX
        &&& forall|k: int|
            0 <= k < self.left.len() ==> (#[trigger] self.left[k]).hazptrs == self.domain.hazptrs
    }

    /// The reclaimer has found only such addresses guarded as are, keeps only objects that are
    /// guarded, and once it knows that no object was retired during its pass, only such are left.
    spec fn is_sound(self) -> bool {
        let r = self.reclaimer;
        let addresses = model::guarded(self.domain.hazptrs);
        &&& r.transitive
        &&& r.guarded.subset_of(addresses)
        &&& is_all_at(r.kept, r.guarded)
        &&& match r.phase {
            Phase::Begin | Phase::Steal | Phase::LoadHead => true,
            Phase::LoadActive(n) => n <= self.domain.hazptrs.len(),
            Phase::LoadPtr(n) => n < self.domain.hazptrs.len()
                && self.domain.hazptrs[n as int].active,
            Phase::Lookup | Phase::LoadDone => true,
            Phase::SubtractDue | Phase::Splice => r.done ==> self.domain.retired.len() == 0,
            Phase::End => r.done ==> is_all_at(self.domain.retired, addresses),
            Phase::Finished => is_all_at(self.domain.retired, addresses),
            _ => false,
        }
    }
}

/// All the objects are at one of the addresses.
pub open spec fn is_all_at(objs: Seq<Retired>, addresses: Set<usize>) -> bool {
    forall|i: int| 0 <= i < objs.len() ==> addresses.contains((#[trigger] objs[i]).data_ptr)
}

proof fn lemma_step_sound(run: Run, now: u64)
    requires
        run.leaves_hazptrs(),
        run.is_sound(),
    ensures
        run.step(now).leaves_hazptrs(),
        run.step(now).is_sound(),
        run.step(now).domain.hazptrs == run.domain.hazptrs,
{
    let r = run.reclaimer;
    let next = run.step(now);
    let addresses = model::guarded(run.domain.hazptrs);
    if next.left != run.left {
        assert(forall|k: int| 0 <= k < next.left.len() ==> next.left[k] == run.left[k + 1]);
    }
    match r.phase {
        Phase::LoadPtr(n) => {
            assert(addresses.contains(run.domain.hazptrs[n as int].ptr));
        },
        Phase::SubtractDue | Phase::Splice => {
            if r.done {
                assert(run.domain.retired + r.kept =~= r.kept);
            }
        },
        _ => {},
    }
}

/// Whatever its deleters retire: a transitive reclaimer that has come to its end leaves no retired
/// objects but those that an active hazard pointer guards.
pub proof fn law_transitive_end_leaves_guarded(run: Run, now: u64, n: nat)
    requires
        run.leaves_hazptrs(),
        run.reclaimer == ReclaimerView::starting(run.domain.id, Phase::Begin, true),
        run.after(now, n).reclaimer.phase is Finished,
    ensures
        run.after(now, n).domain.hazptrs == run.domain.hazptrs,
        is_all_at(
            run.after(now, n).domain.retired,
            model::guarded(run.domain.hazptrs),
        ),
{
    lemma_run_sound(run, now, n);
}

/// Whatever its deleters retire: a reclaimer that has won the claim of a timed cleanup leaves, at its
/// end, no retired objects but those that an active hazard pointer announces.
pub proof fn law_claim_won_leaves_guarded(run: Run, now: u64, n: nat, i: int)
    requires
        run.leaves_hazptrs(),
        run.reclaimer.phase is ClaimSyncTime,
        run.domain.sync_time == run.reclaimer.phase->seen,
        run.reclaimer.kept.len() == 0,
        run.reclaimer.guarded =~= Set::<usize>::empty(),
        run.after(now, n).reclaimer.phase is Finished,
        0 <= i < run.after(now, n).domain.retired.len(),
    ensures
        exact::announced(run.domain.hazptrs)(run.after(now, n).domain.retired[i].data_ptr),
{
    assert(n > 0);
    let next = run.step(now);
    assert(next.is_sound());
    lemma_run_sound(next, now, (n - 1) as nat);
}

/// Whatever its deleters retire: a retirement, or a cleanup, that begins when the time of the next
/// timed cleanup has passed leaves, at its end, no retired objects but those that an active hazard
/// pointer announces.
pub proof fn law_timed_end_leaves_guarded(run: Run, phase: Phase, now: u64, n: nat, i: int)
    requires
        run.leaves_hazptrs(),
        phase is CountRetired || phase is LoadSyncTime,
        run.reclaimer == ReclaimerView::starting(run.domain.id, phase, false),
        now > run.domain.sync_time,
        run.after(now, n).reclaimer.phase is Finished,
        0 <= i < run.after(now, n).domain.retired.len(),
    ensures
        exact::announced(run.domain.hazptrs)(run.after(now, n).domain.retired[i].data_ptr),
{
    lemma_timed(run, now, n, i);
}

proof fn lemma_timed(run: Run, now: u64, n: nat, i: int)
    requires
        run.leaves_hazptrs(),
        run.reclaimer.phase is CountRetired || run.reclaimer.phase is Push || run.reclaimer.phase
            is LoadSyncTime,
        run.reclaimer.kept.len() == 0,
        run.reclaimer.guarded =~= Set::<usize>::empty(),
        now > run.domain.sync_time,
        run.after(now, n).reclaimer.phase is Finished,
        0 <= i < run.after(now, n).domain.retired.len(),
    ensures
        exact::announced(run.domain.hazptrs)(run.after(now, n).domain.retired[i].data_ptr),
    decreases n,
{
    assert(n > 0);
    let next = run.step(now);
    if run.reclaimer.phase is LoadSyncTime {
        law_claim_won_leaves_guarded(next, now, (n - 1) as nat, i);
    } else {
        lemma_timed(next, now, (n - 1) as nat, i);
    }
}

proof fn lemma_run_sound(run: Run, now: u64, n: nat)
    requires
        run.leaves_hazptrs(),
        run.is_sound(),
    ensures
        run.after(now, n).is_sound(),
        run.after(now, n).domain.hazptrs == run.domain.hazptrs,
    decreases n,
{
    if n > 0 {
        lemma_step_sound(run, now);
        lemma_run_sound(run.step(now), now, (n - 1) as nat);
    }
}

/// A reclaimer comes to its end if only so many of its deleters retire objects, whatever else they
/// do. The result is how many steps that takes.
pub proof fn law_finishes_if_deleters_do(run: Run, now: u64) -> (n: nat)
    ensures
        run.after(now, n).reclaimer.phase is Finished,
    decreases
            run.left.len(),
            undisturbed::passes_ahead(run.reclaimer, run.domain),
            undisturbed::phases_ahead(run.reclaimer),
            undisturbed::steps_ahead(run.reclaimer),
{
    if run.reclaimer.phase is Finished {
        0
    } else {
        let next = run.step(now);
        let n = law_finishes_if_deleters_do(next, now);
        n + 1
    }
}

} // verus!
