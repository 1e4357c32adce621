//! What holds of a domain over several calls, or of every call.
use crate::deleter::Retired;
use crate::holder::HolderView;
use crate::model;
use crate::model::{DomainId, DomainView, SYNC_TIME_PERIOD};
use crate::ptr::HazPtr;
use crate::reclaimer::{Phase, ReclaimerView};
use vstd::prelude::*;

verus! {

/// An object of a stack is sorted by its address.
pub(crate) proof fn lemma_sorted(stack: Seq<Retired>, addresses: Set<usize>, obj: Retired)
    ensures
        model::due_of(stack, addresses).contains(obj) <==> stack.contains(obj)
            && !addresses.contains(obj.data_ptr),
        model::kept_of(stack, addresses).contains(obj) <==> stack.contains(obj)
            && addresses.contains(obj.data_ptr),
    decreases stack.len(),
{
    model::lemma_sort_top(stack, addresses);
    if stack.len() > 0 {
        let rest = stack.drop_last();
        let top = seq![stack.last()];
        lemma_sorted(rest, addresses, obj);
        assert(stack =~= rest.push(stack.last()));
        assert(stack.contains(obj) <==> rest.contains(obj) || obj == stack.last()) by {
            if rest.contains(obj) {
                let i = choose|i: int| 0 <= i < rest.len() && rest[i] == obj;
                assert(stack[i] == obj);
            }
            assert(stack[stack.len() - 1] == stack.last());
        }
        lemma_contains_after_top(stack.last(), model::due_of(rest, addresses), obj);
        lemma_contains_after_top(stack.last(), model::kept_of(rest, addresses), obj);
    }
}

/// What a sequence with one more element in front contains.
proof fn lemma_contains_after_top(top: Retired, s: Seq<Retired>, obj: Retired)
    ensures
        (seq![top] + s).contains(obj) <==> obj == top || s.contains(obj),
{
    let all = seq![top] + s;
    assert(all[0] == top);
    if s.contains(obj) {
        let i = choose|i: int| 0 <= i < s.len() && s[i] == obj;
        assert(all[i + 1] == obj);
    }
    if all.contains(obj) {
        let i = choose|i: int| 0 <= i < all.len() && all[i] == obj;
        if i > 0 {
            assert(s[i - 1] == obj);
        }
    }
}

/// Sorting a stack loses nothing and makes nothing up.
proof fn lemma_sorted_all(stack: Seq<Retired>, addresses: Set<usize>)
    ensures
        model::due_of(stack, addresses).to_multiset().add(
            model::kept_of(stack, addresses).to_multiset(),
        ) =~= stack.to_multiset(),
    decreases stack.len(),
{
    broadcast use vstd::seq_lib::group_to_multiset_ensures;
    broadcast use vstd::multiset::group_multiset_axioms;

    model::lemma_sort_top(stack, addresses);
    if stack.len() > 0 {
        let rest = stack.drop_last();
        lemma_sorted_all(rest, addresses);
        assert(stack =~= rest.push(stack.last()));
        vstd::seq_lib::lemma_multiset_commutative(
            seq![stack.last()],
            model::due_of(rest, addresses),
        );
        vstd::seq_lib::lemma_multiset_commutative(
            seq![stack.last()],
            model::kept_of(rest, addresses),
        );
        assert(seq![stack.last()] =~= Seq::<Retired>::empty().push(stack.last()));
    } else {
        assert(stack =~= Seq::<Retired>::empty());
    }
}

/// A pass sorts the retired objects into those that are due and those that stay: none is lost, and
/// none is made up.
pub proof fn law_pass_loses_nothing(d: DomainView)
    ensures
        d.pass_due().to_multiset().add(d.after_bulk_reclaim().retired.to_multiset())
            =~= d.retired.to_multiset(),
{
    lemma_sorted_all(d.retired, model::guarded(d.hazptrs));
    if d.retired.len() == 0 {
        model::lemma_sort_top(d.retired, model::guarded(d.hazptrs));
        assert(d.retired =~= d.pass_kept());
    }
}

/// As long as an active hazard pointer announces its address, a retired object stays retired.
pub proof fn law_guarded_stays(d: DomainView, slot: int, obj: Retired)
    requires
        0 <= slot < d.hazptrs.len(),
        d.hazptrs[slot] == (HazPtr { ptr: obj.data_ptr, active: true }),
    ensures
        !d.pass_due().contains(obj),
        d.retired.contains(obj) ==> d.after_bulk_reclaim().retired.contains(obj),
{
    lemma_sorted(d.retired, model::guarded(d.hazptrs), obj);
}

/// Once no active hazard pointer announces its address, the next pass hands a retired object out
/// for deletion.
pub proof fn law_unguarded_goes(d: DomainView, obj: Retired)
    requires
        d.retired.contains(obj),
        !model::guarded(d.hazptrs).contains(obj.data_ptr),
    ensures
        d.pass_due().contains(obj),
        !d.after_bulk_reclaim().retired.contains(obj),
{
    lemma_sorted(d.retired, model::guarded(d.hazptrs), obj);
}

/// When the last reader that announced its address gives its hazard pointer up, or stops
/// announcing, a retired object is handed out by the next pass.
pub proof fn law_last_reader_lets_go(d: DomainView, h: HolderView, obj: Retired)
    requires
        h.is_for(d),
        d.retired.contains(obj),
        forall|i: int|
            0 <= i < d.hazptrs.len() && i != h.slot && (#[trigger] d.hazptrs[i]).active
                ==> d.hazptrs[i].ptr != obj.data_ptr,
    ensures
        d.with_hazptr(h.slot, HazPtr { ptr: 0, active: false }).pass_due().contains(obj),
        obj.data_ptr != 0 ==> h.announcing(d, 0).pass_due().contains(obj),
{
    law_unguarded_goes(d.with_hazptr(h.slot, HazPtr { ptr: 0, active: false }), obj);
    if obj.data_ptr != 0 {
        law_unguarded_goes(h.announcing(d, 0), obj);
    }
}

/// What the owner of an active hazard pointer has announced, a pass does not hand out.
pub proof fn law_announced_stays(d: DomainView, h: HolderView, ptr: usize, obj: Retired)
    requires
        h.is_for(d),
        d.hazptrs[h.slot].active,
        obj.data_ptr == ptr,
    ensures
        !h.announcing(d, ptr).pass_due().contains(obj),
{
    law_guarded_stays(h.announcing(d, ptr), h.slot, obj);
}

/// A second pass right after a first finds nothing more to hand out.
pub proof fn law_second_pass_finds_nothing(d: DomainView)
    ensures
        d.after_bulk_reclaim().pass_due() == Seq::<Retired>::empty(),
{
    let d2 = d.after_bulk_reclaim();
    let due = d2.pass_due();
    if due.len() > 0 {
        let obj = due[0];
        assert(due.contains(obj));
        lemma_sorted(d2.retired, model::guarded(d.hazptrs), obj);
        if d.retired.len() == 0 {
            assert(d2.retired.len() == 0);
        } else {
            lemma_sorted(d.retired, model::guarded(d.hazptrs), obj);
        }
    }
    assert(due =~= Seq::<Retired>::empty());
}

/// Once every reader has given its hazard pointer up, a pass hands all the retired objects out,
/// topmost first.
pub proof fn law_free_pass_takes_all(d: DomainView)
    requires
        model::all_free(d.hazptrs),
    ensures
        d.pass_due() == d.retired.reverse(),
        d.after_bulk_reclaim().retired == Seq::<Retired>::empty(),
{
    let guarded = model::guarded(d.hazptrs);
    assert(guarded =~= Set::<usize>::empty());
    lemma_sort_by_nothing(d.retired);
    if d.retired.len() == 0 {
        assert(d.retired =~= Seq::<Retired>::empty());
    }
}

proof fn lemma_sort_by_nothing(stack: Seq<Retired>)
    ensures
        model::due_of(stack, Set::empty()) == stack.reverse(),
        model::kept_of(stack, Set::empty()) == Seq::<Retired>::empty(),
    decreases stack.len(),
{
    model::lemma_sort_top(stack, Set::empty());
    if stack.len() > 0 {
        lemma_sort_by_nothing(stack.drop_last());
        assert(stack.reverse() =~= seq![stack.last()] + stack.drop_last().reverse());
    }
}

/// Retiring loses nothing: the new object and those from before are each still retired, or due.
pub proof fn law_retire_loses_nothing(d: DomainView, obj: Retired, now: u64)
    ensures
        ({
            let pushed = d.after_push(obj);
            pushed.cleanup_due(now).to_multiset().add(
                pushed.after_cleanup(now).retired.to_multiset(),
            ) =~= d.retired.to_multiset().insert(obj)
        }),
{
    broadcast use vstd::seq_lib::group_to_multiset_ensures;
    broadcast use vstd::multiset::group_multiset_axioms;

    let pushed = d.after_push(obj);
    law_pass_loses_nothing(pushed);
}

/// Retiring and reclaiming change nothing about the hazard pointers.
pub proof fn law_hazptrs_stay(d: DomainView, obj: Retired, now: u64)
    ensures
        d.after_push(obj).after_cleanup(now).hazptrs == d.hazptrs,
        d.after_cleanup(now).hazptrs == d.hazptrs,
        d.after_bulk_reclaim().hazptrs == d.hazptrs,
{
}

/// Nor does any step of a reclaimer.
pub proof fn law_step_leaves_hazptrs(r: ReclaimerView, d: DomainView, now: u64)
    ensures
        r.step(d, now).domain.hazptrs == d.hazptrs,
        r.step(d, now).domain.hazptr_count == d.hazptr_count,
{
}

/// The hazard pointers are always counted right.
pub proof fn law_hazptrs_counted(
    d: DomainView,
    id: DomainId,
    obj: Retired,
    now: u64,
    slot: int,
    h: HazPtr,
)
    requires
        d.wf(),
        0 <= slot < d.hazptrs.len(),
    ensures
        DomainView::fresh(id).wf(),
        d.with_new_hazptr().wf(),
        d.with_hazptr(slot, h).wf(),
        d.after_push(obj).after_cleanup(now).wf(),
        d.after_cleanup(now).wf(),
        d.after_bulk_reclaim().wf(),
{
}

/// A hazard pointer that its reader has given up is used again before a new one is made.
pub proof fn law_released_is_reused(d: DomainView, h: HolderView)
    requires
        h.is_for(d),
    ensures
        !model::all_taken(d.with_hazptr(h.slot, HazPtr { ptr: 0, active: false }).hazptrs),
{
    let after = d.with_hazptr(h.slot, HazPtr { ptr: 0, active: false });
    assert(!after.hazptrs[h.slot].active);
}

/// A reader that takes a hazard pointer takes none that another reader owns.
pub proof fn law_owners_differ(d: DomainView, owned: int, taken: int)
    requires
        0 <= owned < d.hazptrs.len(),
        d.hazptrs[owned].active,
        model::is_newest_free(d.hazptrs, taken) || (model::all_taken(d.hazptrs) && taken
            == d.hazptrs.len()),
    ensures
        owned != taken,
{
}

/// After a timed cleanup there is no other one until the period is over, and then there is.
pub proof fn law_timed_once_per_period(d: DomainView, now: u64, later: u64)
    requires
        d.is_timed(now),
        now + SYNC_TIME_PERIOD <= u64::MAX,
    ensures
        d.after_cleanup(now).is_timed(later) <==> later > now + SYNC_TIME_PERIOD,
        d.sync_time < d.after_cleanup(now).sync_time,
{
}

/// A fresh domain counts its retired objects right, and nothing that readers do changes that.
pub proof fn law_readers_leave_the_count(d: DomainView, id: DomainId, slot: int, h: HazPtr)
    requires
        d.retired_count_exact(),
    ensures
        DomainView::fresh(id).retired_count_exact(),
        d.with_new_hazptr().retired_count_exact(),
        d.with_hazptr(slot, h).retired_count_exact(),
{
}

/// A pass takes what it hands out off the count of the retired objects, and nothing else.
pub proof fn law_pass_counts(d: DomainView)
    requires
        d.retired_count_exact(),
    ensures
        d.after_bulk_reclaim().retired_count == d.retired_count - d.pass_due().len(),
        d.after_bulk_reclaim().retired_count_exact(),
{
    model::lemma_sort_top(d.retired, model::guarded(d.hazptrs));
}

/// A cleanup keeps the count of the retired objects right, whatever starts it.
pub proof fn law_cleanup_counts(d: DomainView, now: u64)
    requires
        d.retired_count_exact(),
    ensures
        d.after_cleanup(now).retired_count == d.retired_count - d.cleanup_due(now).len(),
        d.after_cleanup(now).retired_count_exact(),
{
    law_pass_counts(d);
    law_pass_counts(d.after_sync(now));
}

/// Retiring keeps the count of the retired objects right, as far as the counter reaches.
pub proof fn law_retire_counts(d: DomainView, obj: Retired, now: u64)
    requires
        d.retired_count_exact(),
        d.retired.len() < isize::MAX,
    ensures
        d.after_push(obj).retired_count_exact(),
        d.after_push(obj).after_cleanup(now).retired_count_exact(),
{
    law_cleanup_counts(d.after_push(obj), now);
}

/// All the objects that are among the retired ones of a domain or in the hands of a reclaimer.
pub open spec fn objects(r: ReclaimerView, d: DomainView) -> Seq<Retired> {
    r.in_hand() + r.stolen + r.kept + d.retired
}

/// A reclaimer starts with no objects in its hands but the one that it is to retire, and whatever
/// others do to the domain between its steps, it ends with none.
pub proof fn law_tidy_always(r: ReclaimerView, d: DomainView, now: u64, phase: Phase, t: bool)
    requires
        r.is_tidy(),
    ensures
        ReclaimerView::starting(d.id, phase, t).is_tidy(),
        r.step(d, now).reclaimer.is_tidy(),
        r.phase is Finished ==> r.in_hand() + r.stolen + r.kept == Seq::<Retired>::empty(),
{
}

/// Whatever others do to the domain between its steps, no step of a reclaimer loses an object or
/// makes one up: what is due by it is what is then missing.
pub proof fn law_step_loses_nothing(r: ReclaimerView, d: DomainView, now: u64)
    requires
        r.is_tidy(),
    ensures
        ({
            let s = r.step(d, now);
            let left = objects(s.reclaimer, s.domain).to_multiset();
            objects(r, d).to_multiset() =~= match s.due {
                Some(obj) => left.insert(obj),
                None => left,
            }
        }),
{
    broadcast use vstd::seq_lib::group_to_multiset_ensures;
    broadcast use vstd::multiset::group_multiset_axioms;

    let s = r.step(d, now);
    lemma_objects(r, d);
    lemma_objects(s.reclaimer, s.domain);
    match r.phase {
        Phase::Push(obj) => {
            assert(seq![obj] =~= Seq::<Retired>::empty().push(obj));
        },
        Phase::Lookup => {
            if r.stolen.len() > 0 {
                assert(r.stolen =~= r.stolen.drop_last().push(r.stolen.last()));
            }
        },
        Phase::Splice => {
            vstd::seq_lib::lemma_multiset_commutative(d.retired, r.kept);
        },
        _ => {},
    }
}

proof fn lemma_objects(r: ReclaimerView, d: DomainView)
    ensures
        objects(r, d).to_multiset() =~= r.in_hand().to_multiset().add(r.stolen.to_multiset()).add(
            r.kept.to_multiset(),
        ).add(d.retired.to_multiset()),
{
    vstd::seq_lib::lemma_multiset_commutative(r.in_hand(), r.stolen);
    vstd::seq_lib::lemma_multiset_commutative(r.in_hand() + r.stolen, r.kept);
    vstd::seq_lib::lemma_multiset_commutative(r.in_hand() + r.stolen + r.kept, d.retired);
}

} // verus!
