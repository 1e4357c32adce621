//! What the operations on a domain do to it, field by field and index by index.
use crate::deleter::Retired;
use crate::holder;
use crate::holder::HolderView;
use crate::model;
use crate::model::{DomainId, DomainView};
use crate::ptr::HazPtr;
use std::sync::atomic::{AtomicUsize, Ordering};
use vstd::prelude::*;

verus! {

/// A domain starts with nothing in it.
pub proof fn law_fresh_is_empty(id: DomainId)
    ensures
        ({
            let d = DomainView::fresh(id);
            &&& d.id == id
            &&& d.hazptrs.len() == 0 && d.hazptr_count == 0
            &&& d.retired.len() == 0 && d.retired_count == 0
            &&& d.sync_time == 0 && d.nbulk_reclaims == 0
        }),
{
}

/// An address is guarded if and only if some active hazard pointer announces it.
pub proof fn law_guarded_is_announced(hazptrs: Seq<HazPtr>, ptr: usize)
    ensures
        model::guarded(hazptrs).contains(ptr) <==> exists|i: int|
            0 <= i < hazptrs.len() && (#[trigger] hazptrs[i]).active && hazptrs[i].ptr == ptr,
{
}

/// The hazard pointer that is taken next is the last one that is not active; a new one is made if
/// and only if all are active. There is always one or the other.
pub proof fn law_who_is_taken(hazptrs: Seq<HazPtr>, slot: int)
    ensures
        model::is_newest_free(hazptrs, slot) <==> 0 <= slot < hazptrs.len() && !hazptrs[slot].active
            && (forall|j: int| slot < j < hazptrs.len() ==> (#[trigger] hazptrs[j]).active),
        model::all_taken(hazptrs) <==> (forall|j: int|
            0 <= j < hazptrs.len() ==> (#[trigger] hazptrs[j]).active),
        model::all_free(hazptrs) <==> (forall|j: int|
            0 <= j < hazptrs.len() ==> !(#[trigger] hazptrs[j]).active),
        model::all_taken(hazptrs) || exists|i: int| model::is_newest_free(hazptrs, i),
{
    if !model::all_taken(hazptrs) {
        lemma_newest_free(hazptrs, hazptrs.len() as int);
    }
}

/// If not all of the first `n` hazard pointers are taken, and all the later ones are, one is the
/// newest that is free.
proof fn lemma_newest_free(hazptrs: Seq<HazPtr>, n: int)
    requires
        0 <= n <= hazptrs.len(),
        !model::all_taken(hazptrs),
        forall|j: int| n <= j < hazptrs.len() ==> (#[trigger] hazptrs[j]).active,
    ensures
        exists|i: int| model::is_newest_free(hazptrs, i),
    decreases n,
{
    if n > 0 {
        if hazptrs[n - 1].active {
            lemma_newest_free(hazptrs, n - 1);
        } else {
            assert(model::is_newest_free(hazptrs, n - 1));
        }
    }
}

/// Putting another value in the place of a hazard pointer changes that hazard pointer alone.
pub proof fn law_one_hazptr_changes(d: DomainView, slot: int, h: HazPtr)
    requires
        0 <= slot < d.hazptrs.len(),
    ensures
        ({
            let d2 = d.with_hazptr(slot, h);
            &&& d2.hazptrs.len() == d.hazptrs.len()
            &&& d2.hazptrs[slot] == h
            &&& forall|i: int|
                0 <= i < d.hazptrs.len() && i != slot ==> #[trigger] d2.hazptrs[i] == d.hazptrs[i]
            &&& d2.id == d.id && d2.hazptr_count == d.hazptr_count
            &&& d2.retired == d.retired && d2.retired_count == d.retired_count
            &&& d2.sync_time == d.sync_time && d2.nbulk_reclaims == d.nbulk_reclaims
        }),
{
}

/// A new hazard pointer comes after the others, is active and announces nothing, and the count goes
/// up by one.
pub proof fn law_one_hazptr_more(d: DomainView)
    requires
        d.hazptr_count < isize::MAX,
    ensures
        ({
            let d2 = d.with_new_hazptr();
            &&& d2.hazptrs.len() == d.hazptrs.len() + 1
            &&& d2.hazptrs[d.hazptrs.len() as int] == (HazPtr { ptr: 0, active: true })
            &&& forall|i: int|
                0 <= i < d.hazptrs.len() ==> #[trigger] d2.hazptrs[i] == d.hazptrs[i]
            &&& d2.hazptr_count == d.hazptr_count + 1
            &&& d2.id == d.id
            &&& d2.retired == d.retired && d2.retired_count == d.retired_count
            &&& d2.sync_time == d.sync_time && d2.nbulk_reclaims == d.nbulk_reclaims
        }),
        d.with_pushed_hazptr().hazptrs == d.with_new_hazptr().hazptrs,
        d.with_pushed_hazptr().hazptr_count == d.hazptr_count,
        d.with_hazptr_counted().hazptrs == d.hazptrs,
        d.with_hazptr_counted().hazptr_count == d.hazptr_count + 1,
{
}

/// A holder announces exactly the address that it is given, with its own hazard pointer, which stays
/// as active as it is.
pub proof fn law_announcing_is_exact(h: HolderView, d: DomainView, ptr: usize)
    requires
        0 <= h.slot < d.hazptrs.len(),
    ensures
        ({
            let d2 = h.announcing(d, ptr);
            &&& d2.hazptrs.len() == d.hazptrs.len()
            &&& d2.hazptrs[h.slot].ptr == ptr
            &&& d2.hazptrs[h.slot].active == d.hazptrs[h.slot].active
            &&& forall|i: int|
                0 <= i < d.hazptrs.len() && i != h.slot ==> #[trigger] d2.hazptrs[i]
                    == d.hazptrs[i]
            &&& d2.id == d.id && d2.hazptr_count == d.hazptr_count
            &&& d2.retired == d.retired && d2.retired_count == d.retired_count
            &&& d2.sync_time == d.sync_time && d2.nbulk_reclaims == d.nbulk_reclaims
        }),
{
}

/// A hazard pointer is one of a domain if it was taken from it: then its place is one of those.
pub proof fn law_holder_of_a_domain(h: HolderView, d: DomainView)
    ensures
        h.is_for(d) <==> h.domain == d.id && 0 <= h.slot < d.hazptrs.len(),
{
}

/// What a holder has announced while its hazard pointer is active is guarded, and what it no longer
/// announces is guarded only if another active hazard pointer announces it.
pub proof fn law_announced_is_guarded(h: HolderView, d: DomainView, ptr: usize, other: usize)
    requires
        0 <= h.slot < d.hazptrs.len(),
        d.hazptrs[h.slot].active,
    ensures
        model::guarded(h.announcing(d, ptr).hazptrs).contains(ptr),
        other != ptr ==> (model::guarded(h.announcing(d, ptr).hazptrs).contains(other)
            <==> exists|i: int|
            0 <= i < d.hazptrs.len() && i != h.slot && (#[trigger] d.hazptrs[i]).active
                && d.hazptrs[i].ptr == other),
{
    let d2 = h.announcing(d, ptr);
    assert(d2.hazptrs[h.slot].active && d2.hazptrs[h.slot].ptr == ptr);
    if model::guarded(d2.hazptrs).contains(other) && other != ptr {
        let i = choose|i: int|
            0 <= i < d2.hazptrs.len() && (#[trigger] d2.hazptrs[i]).active && d2.hazptrs[i].ptr
                == other;
        assert(d.hazptrs[i] == d2.hazptrs[i]);
    }
    if exists|i: int|
        0 <= i < d.hazptrs.len() && i != h.slot && (#[trigger] d.hazptrs[i]).active
            && d.hazptrs[i].ptr == other {
        let i = choose|i: int|
            0 <= i < d.hazptrs.len() && i != h.slot && (#[trigger] d.hazptrs[i]).active
                && d.hazptrs[i].ptr == other;
        assert(d2.hazptrs[i] == d.hazptrs[i]);
    }
}

/// Retiring puts the object on top of the others and counts it.
pub proof fn law_push_is_exact(d: DomainView, obj: Retired)
    requires
        d.retired_count < isize::MAX,
    ensures
        ({
            let d2 = d.after_push(obj);
            &&& d2.retired.len() == d.retired.len() + 1
            &&& d2.retired[d.retired.len() as int] == obj
            &&& forall|i: int|
                0 <= i < d.retired.len() ==> #[trigger] d2.retired[i] == d.retired[i]
            &&& d2.retired_count == d.retired_count + 1
            &&& d2.id == d.id
            &&& d2.hazptrs == d.hazptrs && d2.hazptr_count == d.hazptr_count
            &&& d2.sync_time == d.sync_time && d2.nbulk_reclaims == d.nbulk_reclaims
        }),
{
}

/// The objects are those of the stack whose address passes the test, topmost first and each once:
/// `at` says where in the stack each of them is.
pub open spec fn is_picked(
    objs: Seq<Retired>,
    stack: Seq<Retired>,
    at: Seq<int>,
    test: spec_fn(usize) -> bool,
) -> bool {
    &&& at.len() == objs.len()
    &&& forall|k: int|
        0 <= k < at.len() ==> 0 <= #[trigger] at[k] < stack.len() && objs[k] == stack[at[k]]
    &&& forall|k: int, l: int| 0 <= k < l < at.len() ==> #[trigger] at[k] > #[trigger] at[l]
    &&& forall|i: int|
        0 <= i < stack.len() ==> (test((#[trigger] stack[i]).data_ptr) <==> exists|k: int|
            0 <= k < at.len() && #[trigger] at[k] == i)
}

/// Whether an address is one of these.
pub open spec fn among(addresses: Set<usize>) -> spec_fn(usize) -> bool {
    |p: usize| addresses.contains(p)
}

/// Whether an address is none of these.
pub open spec fn not_among(addresses: Set<usize>) -> spec_fn(usize) -> bool {
    |p: usize| !addresses.contains(p)
}

/// Where in a stack the objects are that pass the test, topmost first.
spec fn places(stack: Seq<Retired>, test: spec_fn(usize) -> bool) -> Seq<int>
    decreases stack.len(),
{
    if stack.len() == 0 {
        Seq::empty()
    } else {
        let rest = places(stack.drop_last(), test);
        if test(stack.last().data_ptr) {
            seq![stack.len() - 1] + rest
        } else {
            rest
        }
    }
}

proof fn lemma_places(
    stack: Seq<Retired>,
    rest_objs: Seq<Retired>,
    objs: Seq<Retired>,
    test: spec_fn(usize) -> bool,
)
    requires
        stack.len() > 0,
        is_picked(rest_objs, stack.drop_last(), places(stack.drop_last(), test), test),
        objs == if test(stack.last().data_ptr) {
            seq![stack.last()] + rest_objs
        } else {
            rest_objs
        },
    ensures
        is_picked(objs, stack, places(stack, test), test),
{
    let rest = stack.drop_last();
    let n = rest.len() as int;
    let at0 = places(rest, test);
    let at = places(stack, test);
    let picks = test(stack.last().data_ptr);
    let shift: int = if picks {
        1
    } else {
        0
    };
    assert(forall|k: int| 0 <= k < at0.len() ==> #[trigger] at0[k] == at[k + shift]);
    assert forall|k: int| 0 <= k < at.len() implies 0 <= #[trigger] at[k] < stack.len() && objs[k]
        == stack[at[k]] by {
        if k >= shift {
            assert(at[k] == at0[k - shift]);
            assert(objs[k] == rest_objs[k - shift]);
        }
    }
    assert forall|k: int, l: int| 0 <= k < l < at.len() implies #[trigger] at[k]
        > #[trigger] at[l] by {
        assert(at[l] == at0[l - shift]);
        if k >= shift {
            assert(at[k] == at0[k - shift]);
        }
    }
    assert forall|i: int| 0 <= i < stack.len() implies (test((
    #[trigger] stack[i]).data_ptr) <==> exists|k: int|
        0 <= k < at.len() && #[trigger] at[k] == i) by {
        if i < n {
            assert(rest[i] == stack[i]);
            if test(stack[i].data_ptr) {
                let k = choose|k: int| 0 <= k < at0.len() && #[trigger] at0[k] == i;
                assert(at[k + shift] == i);
            }
            if exists|k: int| 0 <= k < at.len() && #[trigger] at[k] == i {
                let k = choose|k: int| 0 <= k < at.len() && #[trigger] at[k] == i;
                if k >= shift {
                    assert(at0[k - shift] == i);
                }
            }
        } else {
            if picks {
                assert(at[0] == n);
            } else if exists|k: int| 0 <= k < at.len() && #[trigger] at[k] == i {
                let k = choose|k: int| 0 <= k < at.len() && #[trigger] at[k] == i;
                assert(at0[k] == i);
            }
        }
    }
}

/// Of the objects of a stack, those that are due are the ones whose address is not among the given
/// ones, topmost first and each once; the others are kept, in the same order.
pub proof fn law_sorted_by_address(stack: Seq<Retired>, addresses: Set<usize>)
    ensures
        exists|at: Seq<int>|
            is_picked(
                model::due_of(stack, addresses),
                stack,
                at,
                not_among(addresses),
            ),
        exists|at: Seq<int>|
            is_picked(
                model::kept_of(stack, addresses),
                stack,
                at,
                among(addresses),
            ),
{
    let off = not_among(addresses);
    let on = among(addresses);
    lemma_sorted_by_address(stack, addresses);
    assert(is_picked(model::due_of(stack, addresses), stack, places(stack, off), off));
    assert(is_picked(model::kept_of(stack, addresses), stack, places(stack, on), on));
}

proof fn lemma_sorted_by_address(stack: Seq<Retired>, addresses: Set<usize>)
    ensures
        ({
            let off = not_among(addresses);
            let on = among(addresses);
            &&& is_picked(model::due_of(stack, addresses), stack, places(stack, off), off)
            &&& is_picked(model::kept_of(stack, addresses), stack, places(stack, on), on)
        }),
    decreases stack.len(),
{
    let off = not_among(addresses);
    let on = among(addresses);
    model::lemma_sort_top(stack, addresses);
    if stack.len() > 0 {
        let rest = stack.drop_last();
        lemma_sorted_by_address(rest, addresses);
        lemma_places(
            stack,
            model::due_of(rest, addresses),
            model::due_of(stack, addresses),
            off,
        );
        lemma_places(
            stack,
            model::kept_of(rest, addresses),
            model::kept_of(stack, addresses),
            on,
        );
    }
}

/// Whether some active hazard pointer announces an address.
pub open spec fn announced(hazptrs: Seq<HazPtr>) -> spec_fn(usize) -> bool {
    |p: usize|
        exists|i: int|
            0 <= i < hazptrs.len() && (#[trigger] hazptrs[i]).active && hazptrs[i].ptr == p
}

/// Whether no active hazard pointer announces an address.
pub open spec fn unannounced(hazptrs: Seq<HazPtr>) -> spec_fn(usize) -> bool {
    |p: usize|
        !exists|i: int|
            0 <= i < hazptrs.len() && (#[trigger] hazptrs[i]).active && hazptrs[i].ptr == p
}

/// A pass hands out exactly the retired objects that no active hazard pointer announces, topmost
/// first and each once, keeps exactly the others, and takes those that it hands out off the count.
/// Nothing else changes, but that a pass over nothing is counted in.
pub proof fn law_pass_is_exact(d: DomainView)
    ensures
        exists|at: Seq<int>|
            is_picked(
                d.pass_due(),
                d.retired,
                at,
                unannounced(d.hazptrs),
            ),
        exists|at: Seq<int>|
            is_picked(
                d.after_bulk_reclaim().retired,
                d.retired,
                at,
                announced(d.hazptrs),
            ),
        ({
            let d2 = d.after_bulk_reclaim();
            let n = d.retired.len() - d2.retired.len();
            &&& n == d.pass_due().len()
            &&& n <= isize::MAX && d.retired_count - n >= isize::MIN ==> d2.retired_count
                == d.retired_count - n
            &&& d2.id == d.id
            &&& d2.hazptrs == d.hazptrs && d2.hazptr_count == d.hazptr_count
            &&& d2.sync_time == d.sync_time
            &&& d.retired.len() > 0 ==> d2.nbulk_reclaims == d.nbulk_reclaims
            &&& d.retired.len() == 0 && d.nbulk_reclaims < usize::MAX ==> d2.nbulk_reclaims
                == d.nbulk_reclaims + 1
        }),
{
    let addresses = model::guarded(d.hazptrs);
    let off = not_among(addresses);
    let on = among(addresses);
    assert(announced(d.hazptrs) =~= on);
    assert(unannounced(d.hazptrs) =~= off);
    lemma_sorted_by_address(d.retired, addresses);
    model::lemma_sort_top(d.retired, addresses);
    let d2 = d.after_bulk_reclaim();
    assert(d2.retired =~= d.pass_kept());
    assert(is_picked(d.pass_due(), d.retired, places(d.retired, off), off));
    assert(is_picked(d2.retired, d.retired, places(d.retired, on), on));
}

/// So many retired objects start a cleanup if there are at least a thousand, and at least twice as
/// many as hazard pointers; more objects, or fewer hazard pointers, never stop one.
pub proof fn law_numbers_that_start_a_cleanup(rc: isize, hc: isize, more: isize, fewer: isize)
    ensures
        model::threshold(rc, hc) <==> rc >= 1000 && rc >= 2 * hc,
        model::threshold(rc, hc) && more >= rc && fewer <= hc ==> model::threshold(more, fewer),
{
}

/// A cleanup is timed if the time that it had to wait for has passed, and then the next one has to
/// wait for two seconds from now.
pub proof fn law_times_that_start_a_cleanup(d: DomainView, now: u64)
    requires
        now + 2_000_000_000 <= u64::MAX,
    ensures
        d.is_timed(now) <==> now > d.sync_time,
        ({
            let d2 = d.after_sync(now);
            &&& d2.sync_time == now + 2_000_000_000
            &&& d2.id == d.id
            &&& d2.hazptrs == d.hazptrs && d2.hazptr_count == d.hazptr_count
            &&& d2.retired == d.retired && d2.retired_count == d.retired_count
            &&& d2.nbulk_reclaims == d.nbulk_reclaims
        }),
{
}

/// If at least a thousand objects are counted as retired, and at least twice as many as hazard
/// pointers, or if the time of the next timed cleanup has passed, then a cleanup hands out exactly
/// the retired objects that no active hazard pointer announces, and the others stay. In any other
/// case it does nothing at all.
pub proof fn law_cleanup_by_numbers_or_time(d: DomainView, now: u64)
    ensures
        d.retired_count >= 1000 && d.retired_count >= 2 * d.hazptr_count || now > d.sync_time ==> {
            &&& exists|at: Seq<int>|
                is_picked(
                    d.cleanup_due(now),
                    d.retired,
                    at,
                    unannounced(d.hazptrs),
                )
            &&& exists|at: Seq<int>|
                is_picked(
                    d.after_cleanup(now).retired,
                    d.retired,
                    at,
                    announced(d.hazptrs),
                )
            &&& d.after_cleanup(now).hazptrs == d.hazptrs
        },
        now <= d.sync_time && (d.retired_count < 1000 || d.retired_count < 2 * d.hazptr_count)
            ==> d.cleanup_due(now).len() == 0 && d.after_cleanup(now) == d,
        now > d.sync_time && now + 2_000_000_000 <= u64::MAX ==> d.after_cleanup(now).sync_time
            == now + 2_000_000_000,
        now <= d.sync_time ==> d.after_cleanup(now).sync_time == d.sync_time,
{
    let d1 = d.after_sync(now);
    law_pass_is_exact(d);
    law_pass_is_exact(d1);
    let at = choose|at: Seq<int>|
        is_picked(d.pass_due(), d.retired, at, unannounced(d.hazptrs));
    assert(d.is_cleaning(now) ==> d.cleanup_due(now) == d.pass_due());
    assert(is_picked(d.pass_due(), d.retired, at, unannounced(d.hazptrs)));
    let kept = choose|kept: Seq<int>|
        is_picked(d1.after_bulk_reclaim().retired, d1.retired, kept, announced(d1.hazptrs));
    assert(d.is_timed(now) ==> is_picked(
        d.after_cleanup(now).retired,
        d.retired,
        kept,
        announced(d.hazptrs),
    ));
    let kept2 = choose|kept2: Seq<int>|
        is_picked(d.after_bulk_reclaim().retired, d.retired, kept2, announced(d.hazptrs));
    assert(!d.is_timed(now) && d.is_cleaning(now) ==> is_picked(
        d.after_cleanup(now).retired,
        d.retired,
        kept2,
        announced(d.hazptrs),
    ));
}

/// A cleanup that would have started still starts with more objects retired, or with fewer hazard
/// pointers: then, too, nothing stays that nobody announces.
pub proof fn law_more_retired_still_starts(d: DomainView, d2: DomainView, now: u64, i: int)
    requires
        d.retired_count >= 1000,
        d.retired_count >= 2 * d.hazptr_count,
        d2.retired_count >= d.retired_count,
        d2.hazptr_count <= d.hazptr_count,
        0 <= i < d2.after_cleanup(now).retired.len(),
    ensures
        announced(d2.hazptrs)(d2.after_cleanup(now).retired[i].data_ptr),
{
    law_cleanup_by_numbers_or_time(d2, now);
    let test = announced(d2.hazptrs);
    let left = d2.after_cleanup(now).retired;
    let at = choose|at: Seq<int>| is_picked(left, d2.retired, at, test);
    assert(left[i] == d2.retired[at[i]]);
    assert(test(d2.retired[at[i]].data_ptr));
}

/// Whatever was read of a source, in order: the first address that was read twice in a row is the
/// one that is protected and announced, and if there is none, nothing is, and the last one is
/// handed back.
pub proof fn law_read_twice_in_a_row(
    h: HolderView,
    d: DomainView,
    first: usize,
    reads: Seq<usize>,
    r: Result<Option<usize>, usize>,
    after: DomainView,
    i: int,
)
    requires
        holder::reads_lead_to(h, d, first, reads, r, after),
        0 <= i <= reads.len(),
        forall|j: int|
            #![trigger reads[j]]
            0 <= j < i ==> reads[j] != if j == 0 {
                first
            } else {
                reads[j - 1]
            },
    ensures
        ({
            let ptr = if i == 0 {
                first
            } else {
                reads[i - 1]
            };
            &&& i < reads.len() && reads[i] == ptr ==> {
                &&& r == Ok::<Option<usize>, usize>(
                    if ptr == 0 {
                        None
                    } else {
                        Some(ptr)
                    },
                )
                &&& after == h.announcing(d, ptr)
            }
            &&& i == reads.len() ==> {
                &&& r == Err::<Option<usize>, usize>(ptr)
                &&& reads.len() > 0 ==> after == h.announcing(d, 0)
                &&& reads.len() == 0 ==> after == d
            }
        }),
{
    let all = seq![first] + reads;
    assert forall|j: int| #![trigger all[j]] 0 <= j < i implies all[j] != all[j + 1] by {
        assert(all[j + 1] == reads[j]);
    }
    if i < reads.len() {
        assert(all[i + 1] == reads[i]);
        if all[i] == all[i + 1] {
            assert(holder::is_first_repeat(all, i));
        }
    } else {
        assert(holder::has_no_repeat(all));
    }
}

/// What the source is found to hold while an address is announced decides whether that protects
/// what is there: it does if and only if it is that address, and otherwise what was found is handed
/// back, and nothing is announced any more.
pub proof fn law_what_is_held_decides(
    h: HolderView,
    d: DomainView,
    ptr: usize,
    held: usize,
    r: Result<Option<usize>, usize>,
    after: DomainView,
)
    requires
        holder::held_leads_to(h, d, ptr, held, r, after),
    ensures
        r is Ok <==> held == ptr,
        r matches Ok(protected) ==> (protected == if ptr == 0 {
            None::<usize>
        } else {
            Some(ptr)
        }),
        r is Ok ==> after == h.announcing(d, ptr),
        r matches Err(found) ==> found == held && found != ptr,
        r is Err ==> after == h.announcing(d, 0),
{
}

/// Of a source that holds one address throughout, the first attempt protects just that.
pub proof fn law_steady_source_is_protected(
    h: HolderView,
    d: DomainView,
    src: &AtomicUsize,
    ptr: usize,
    first: usize,
    reads: Seq<usize>,
    r: Result<Option<usize>, usize>,
    after: DomainView,
)
    requires
        holder::reads_lead_to(h, d, first, reads, r, after),
        reads.len() > 0,
        call_ensures(AtomicUsize::load, (src, Ordering::Relaxed), first),
        forall|i: int|
            0 <= i < reads.len() ==> call_ensures(
                AtomicUsize::load,
                (src, Ordering::Acquire),
                #[trigger] reads[i],
            ),
        forall|v: usize|
            call_ensures(AtomicUsize::load, (src, Ordering::Relaxed), v) ==> v == ptr,
        forall|v: usize|
            call_ensures(AtomicUsize::load, (src, Ordering::Acquire), v) ==> v == ptr,
    ensures
        r == Ok::<Option<usize>, usize>(
            if ptr == 0 {
                None
            } else {
                Some(ptr)
            },
        ),
        after == h.announcing(d, ptr),
{
    assert(reads[0] == ptr);
    law_read_twice_in_a_row(h, d, first, reads, r, after, 0);
}

} // verus!
