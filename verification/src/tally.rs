//! Why the counter of retired objects is right: what it counts while threads are at work.
//!
//! An object is counted before it is put onto the retired ones, and taken off the count only after
//! it was handed out for deletion. In between it may be in the hands of a reclaimer, which does not
//! change the count. So the counter is never too low, let alone negative, and once nobody is at
//! work it says how many objects are retired.
use crate::protocol::{Event, World};
use crate::protocol;
use crate::reclaimer::{Phase, ReclaimerView};
use vstd::prelude::*;

verus! {

/// How many of the objects that are counted a reclaimer answers for: those that it has hold of, and
/// those that it has handed out and not taken off the count yet.
pub open spec fn answers_for(r: ReclaimerView) -> nat {
    match r.phase {
        Phase::Push(_) => 1,
        Phase::LoadHead | Phase::LoadActive(_) | Phase::LoadPtr(_) | Phase::Lookup
        | Phase::LoadDone | Phase::SubtractDue => r.stolen.len() + r.kept.len()
            + r.reclaimed_now as nat,
        Phase::Splice => r.kept.len(),
        _ => 0,
    }
}

/// How many objects reclaimers answer for, all together.
pub open spec fn all_answer_for(rs: Seq<ReclaimerView>) -> nat
    decreases rs.len(),
{
    if rs.len() == 0 {
        0
    } else {
        all_answer_for(rs.drop_last()) + answers_for(rs.last())
    }
}

impl World {
    /// How many objects have to be counted: those that are among the retired ones, and those that
    /// reclaimers answer for.
    pub open spec fn countable(self) -> nat {
        self.domain.retired.len() + all_answer_for(self.reclaimers)
    }
}

/// What one reclaimer answers for changes the sum by as much.
proof fn lemma_all_update(rs: Seq<ReclaimerView>, t: int, r: ReclaimerView)
    requires
        0 <= t < rs.len(),
    ensures
        all_answer_for(rs.update(t, r)) == all_answer_for(rs) - answers_for(rs[t]) + answers_for(r),
    decreases rs.len(),
{
    let rs2 = rs.update(t, r);
    if t == rs.len() - 1 {
        assert(rs2.drop_last() =~= rs.drop_last());
    } else {
        assert(rs2.drop_last() =~= rs.drop_last().update(t, r));
        lemma_all_update(rs.drop_last(), t, r);
    }
}

/// No reclaimer answers for more than all of them.
proof fn lemma_one_of_all(rs: Seq<ReclaimerView>, t: int)
    requires
        0 <= t < rs.len(),
    ensures
        answers_for(rs[t]) <= all_answer_for(rs),
    decreases rs.len(),
{
    if t < rs.len() - 1 {
        lemma_one_of_all(rs.drop_last(), t);
    }
}

/// Finished reclaimers answer for nothing.
proof fn lemma_all_finished(rs: Seq<ReclaimerView>)
    requires
        forall|t: int| 0 <= t < rs.len() ==> (#[trigger] rs[t]).phase is Finished,
    ensures
        all_answer_for(rs) == 0,
    decreases rs.len(),
{
    if rs.len() > 0 {
        lemma_all_finished(rs.drop_last());
    }
}

/// An event keeps the count right.
proof fn lemma_event_counts(w: World, e: Event)
    requires
        w.inv(),
        w.allows(e),
        w.domain.retired_count == w.countable(),
        w.countable() <= isize::MAX,
        w.after(e).countable() <= isize::MAX,
    ensures
        w.after(e).domain.retired_count == w.after(e).countable(),
{
    let w2 = w.after(e);
    match e {
        Event::Step { reclaimer: t, now } => {
            let r = w.reclaimers[t];
            assert(w.reclaimer_ok(t));
            lemma_all_update(w.reclaimers, t, w2.reclaimers[t]);
            lemma_one_of_all(w.reclaimers, t);
        },
        Event::Retire { .. } | Event::Cleanup | Event::Bulk { .. } => {
            assert(w2.reclaimers.drop_last() =~= w.reclaimers);
        },
        _ => {},
    }
}

/// However the threads come: the counter of retired objects counts exactly the objects that are
/// retired or that reclaimers answer for, so that it is never negative, as far as the counter
/// reaches. Once nobody is at work it says how many objects are retired.
pub proof fn law_retired_count_never_negative(w: World, trace: Seq<Event>)
    requires
        w.is_initial(),
        w.allows_all(trace),
        forall|n: int|
            0 <= n <= trace.len() ==> w.after_all(#[trigger] trace.take(n)).countable()
                <= isize::MAX,
    ensures
        w.after_all(trace).domain.retired_count == w.after_all(trace).countable(),
        w.after_all(trace).domain.retired_count >= 0,
        w.after_all(trace).is_quiet() ==> w.after_all(trace).domain.retired_count_exact(),
    decreases trace.len(),
{
    let end = w.after_all(trace);
    assert(trace.take(trace.len() as int) =~= trace);
    if trace.len() > 0 {
        let rest = trace.drop_last();
        assert forall|n: int| 0 <= n <= rest.len() implies w.after_all(
            #[trigger] rest.take(n),
        ).countable() <= isize::MAX by {
            assert(rest.take(n) =~= trace.take(n));
        }
        assert(rest.take(rest.len() as int) =~= rest);
        law_retired_count_never_negative(w, rest);
        protocol::law_inv_always(w, rest);
        lemma_event_counts(w.after_all(rest), trace.last());
    }
    if end.is_quiet() {
        lemma_all_finished(end.reclaimers);
    }
}

} // verus!
