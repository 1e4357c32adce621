//! Why timed cleanups keep their distance, in whatever order the threads come.
//!
//! A reclaimer that finds a timed cleanup due claims it by moving the time of the next one on. Of
//! several that try at once, one wins.
use crate::model::SYNC_TIME_PERIOD;
use crate::protocol::{Event, World};
use crate::reclaimer::Phase;
use vstd::prelude::*;

verus! {

impl World {
    /// Every reclaimer that is about to claim a timed cleanup will move the time of the next one on
    /// by more than the period.
    pub open spec fn claims_ok(self) -> bool {
        forall|t: int|
            0 <= t < self.reclaimers.len() ==> ((#[trigger] self.reclaimers[t]).phase matches
                Phase::ClaimSyncTime { seen, until } ==> until > seen + SYNC_TIME_PERIOD)
    }

    /// The event is the claim of a timed cleanup, and it wins.
    pub open spec fn is_won_by(self, e: Event) -> bool {
        e matches Event::Step { reclaimer, now } && self.reclaimers[reclaimer].phase matches
            Phase::ClaimSyncTime { seen, until } && self.domain.sync_time == seen
    }

    /// When the reclaimer whose claim the event is has found the timed cleanup due.
    pub open spec fn found_due_at(self, e: Event) -> int {
        self.reclaimers[e->Step_reclaimer].phase->until - SYNC_TIME_PERIOD
    }
}

proof fn lemma_claims(w: World, trace: Seq<Event>)
    requires
        w.is_initial(),
        w.allows_all(trace),
    ensures
        w.after_all(trace).claims_ok(),
    decreases trace.len(),
{
    if trace.len() > 0 {
        let rest = trace.drop_last();
        let before = w.after_all(rest);
        let end = w.after_all(trace);
        lemma_claims(w, rest);
        assert forall|t: int| 0 <= t < end.reclaimers.len() implies ((
        #[trigger] end.reclaimers[t]).phase matches Phase::ClaimSyncTime { seen, until } ==> until
            > seen + SYNC_TIME_PERIOD) by {
            if t < before.reclaimers.len() && !(trace.last() is Step
                && trace.last()->Step_reclaimer == t) {
                assert(end.reclaimers[t] == before.reclaimers[t]);
            }
        }
    }
}

/// However the threads come: the time of the next timed cleanup is only ever moved on.
pub proof fn law_sync_time_grows(w: World, trace: Seq<Event>, n: int)
    requires
        w.is_initial(),
        w.allows_all(trace),
        0 <= n <= trace.len(),
    ensures
        w.after_all(trace.take(n)).domain.sync_time <= w.after_all(trace).domain.sync_time,
    decreases trace.len(),
{
    if n == trace.len() {
        assert(trace.take(n) =~= trace);
    } else {
        let rest = trace.drop_last();
        assert(rest.take(n) =~= trace.take(n));
        law_sync_time_grows(w, rest, n);
        lemma_claims(w, rest);
        let before = w.after_all(rest);
        if trace.last() is Step {
            assert(before.reclaimers[trace.last()->Step_reclaimer].phase is ClaimSyncTime
                || w.after_all(trace).domain.sync_time == before.domain.sync_time);
        }
    }
}

/// However the threads come: of any two timed cleanups that are claimed, the second was found due
/// more than the period after the first.
pub proof fn law_claims_keep_their_distance(w: World, trace: Seq<Event>, i: int, j: int)
    requires
        w.is_initial(),
        w.allows_all(trace),
        0 <= i < j < trace.len(),
        w.after_all(trace.take(i)).is_won_by(trace[i]),
        w.after_all(trace.take(j)).is_won_by(trace[j]),
    ensures
        w.after_all(trace.take(j)).found_due_at(trace[j]) > w.after_all(
            trace.take(i),
        ).found_due_at(trace[i]) + SYNC_TIME_PERIOD,
{
    lemma_allows_prefix(w, trace, j);
    let early = trace.take(j);
    assert(early.take(i + 1) =~= trace.take(i + 1));
    assert(trace.take(i + 1).drop_last() =~= trace.take(i));
    law_sync_time_grows(w, early, i + 1);
    lemma_claims(w, early);
    let r = w.after_all(early).reclaimers[trace[j]->Step_reclaimer];
    lemma_allows_prefix(w, trace, j + 1);
    assert(trace.take(j + 1).drop_last() =~= early);
    assert(r.phase is ClaimSyncTime);
}

proof fn lemma_allows_prefix(w: World, trace: Seq<Event>, n: int)
    requires
        w.allows_all(trace),
        0 <= n <= trace.len(),
    ensures
        w.allows_all(trace.take(n)),
    decreases trace.len(),
{
    if n == trace.len() {
        assert(trace.take(n) =~= trace);
    } else {
        assert(trace.drop_last().take(n) =~= trace.take(n));
        lemma_allows_prefix(w, trace.drop_last(), n);
    }
}

} // verus!
