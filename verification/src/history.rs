//! How many hazard pointers a domain comes to have, over any history of its holders.
use crate::deleter::Retired;
use crate::holder::HolderView;
use crate::model;
use crate::model::DomainView;
use crate::ptr::HazPtr;
use vstd::prelude::*;

verus! {

/// One call leads from one domain to the other: a holder takes a hazard pointer, announces
/// something with the one that it has, or gives it up, or a writer does something.
pub open spec fn is_call(d: DomainView, d2: DomainView) -> bool {
    ||| model::all_taken(d.hazptrs) && d2 == d.with_new_hazptr()
    ||| exists|slot: int| #[trigger] is_reuse(d, d2, slot)
    ||| exists|slot: int, ptr: usize| #[trigger] is_announcement(d, d2, slot, ptr)
    ||| exists|slot: int| #[trigger] is_end(d, d2, slot)
    ||| d2.hazptrs == d.hazptrs
}

/// A holder takes the hazard pointer `slot`, which nobody owns.
pub open spec fn is_reuse(d: DomainView, d2: DomainView, slot: int) -> bool {
    &&& model::is_newest_free(d.hazptrs, slot)
    &&& d2 == d.with_hazptr(slot, HazPtr { ptr: d.hazptrs[slot].ptr, active: true })
}

/// The holder of the hazard pointer `slot` announces `ptr`.
pub open spec fn is_announcement(d: DomainView, d2: DomainView, slot: int, ptr: usize) -> bool {
    &&& 0 <= slot < d.hazptrs.len()
    &&& d.hazptrs[slot].active
    &&& d2 == d.with_hazptr(slot, HazPtr { ptr, active: true })
}

/// The holder of the hazard pointer `slot` gives it up.
pub open spec fn is_end(d: DomainView, d2: DomainView, slot: int) -> bool {
    &&& 0 <= slot < d.hazptrs.len()
    &&& d.hazptrs[slot].active
    &&& d2 == d.with_hazptr(slot, HazPtr { ptr: 0, active: false })
}

/// The domains are those that calls lead to one after the other, from one that nobody has used.
pub open spec fn is_history(ds: Seq<DomainView>) -> bool {
    &&& ds.len() > 0
    &&& ds[0] == DomainView::fresh(ds[0].id)
    &&& forall|k: int| 0 < k < ds.len() ==> is_call(ds[k - 1], #[trigger] ds[k])
}

/// What holders and writers do to a domain are such calls.
pub proof fn law_calls_make_history(
    d: DomainView,
    h: HolderView,
    ptr: usize,
    obj: Retired,
    now: u64,
)
    requires
        h.is_for(d),
        d.hazptrs[h.slot].active,
    ensures
        is_call(d, h.announcing(d, ptr)),
        is_call(d, d.with_hazptr(h.slot, HazPtr { ptr: 0, active: false })),
        is_call(d, d.after_push(obj).after_cleanup(now)),
        is_call(d, d.after_bulk_reclaim()),
{
    assert(is_announcement(d, h.announcing(d, ptr), h.slot, ptr));
    assert(is_end(d, d.with_hazptr(h.slot, HazPtr { ptr: 0, active: false }), h.slot));
}

/// How many hazard pointers somebody holds.
pub open spec fn holders(hazptrs: Seq<HazPtr>) -> nat
    decreases hazptrs.len(),
{
    if hazptrs.len() == 0 {
        0
    } else {
        holders(hazptrs.drop_last()) + if hazptrs.last().active {
            1nat
        } else {
            0nat
        }
    }
}

/// How many holders there have been at once, at most.
pub open spec fn most_holders(ds: Seq<DomainView>) -> nat
    decreases ds.len(),
{
    if ds.len() == 0 {
        0
    } else {
        let most = most_holders(ds.drop_last());
        let last = holders(ds.last().hazptrs);
        if last > most {
            last
        } else {
            most
        }
    }
}

proof fn lemma_holders_update(hazptrs: Seq<HazPtr>, slot: int, h: HazPtr)
    requires
        0 <= slot < hazptrs.len(),
    ensures
        h.active == hazptrs[slot].active ==> holders(hazptrs.update(slot, h)) == holders(hazptrs),
        h.active && !hazptrs[slot].active ==> holders(hazptrs.update(slot, h)) == holders(hazptrs)
            + 1,
        !h.active && hazptrs[slot].active ==> holders(hazptrs.update(slot, h)) == holders(hazptrs)
            - 1,
    decreases hazptrs.len(),
{
    let after = hazptrs.update(slot, h);
    if slot == hazptrs.len() - 1 {
        assert(after.drop_last() =~= hazptrs.drop_last());
    } else {
        assert(after.drop_last() =~= hazptrs.drop_last().update(slot, h));
        lemma_holders_update(hazptrs.drop_last(), slot, h);
    }
}

proof fn lemma_holders_at_most(hazptrs: Seq<HazPtr>)
    ensures
        holders(hazptrs) <= hazptrs.len(),
        model::all_taken(hazptrs) ==> holders(hazptrs) == hazptrs.len(),
    decreases hazptrs.len(),
{
    if hazptrs.len() > 0 {
        lemma_holders_at_most(hazptrs.drop_last());
        if model::all_taken(hazptrs) {
            assert(model::all_taken(hazptrs.drop_last()));
            assert(hazptrs[hazptrs.len() - 1].active);
        }
    }
}

/// Over any history of its holders, a domain comes to have as many hazard pointers as there have
/// been holders at once, and those that nobody holds announce nothing.
pub proof fn law_as_many_as_holders_at_once(ds: Seq<DomainView>)
    requires
        is_history(ds),
    ensures
        ds.last().hazptrs.len() == most_holders(ds),
        forall|i: int|
            0 <= i < ds.last().hazptrs.len() && !(#[trigger] ds.last().hazptrs[i]).active
                ==> ds.last().hazptrs[i].ptr == 0,
    decreases ds.len(),
{
    let n = ds.len() as int;
    let d2 = ds.last();
    reveal_with_fuel(most_holders, 2);
    if n == 1 {
        assert(ds.last() == ds[0]);
        assert(ds.drop_last().len() == 0);
    } else {
        let rest = ds.drop_last();
        let d = rest.last();
        assert(d == ds[n - 2]);
        assert(is_call(ds[n - 2], ds[n - 1]));
        law_as_many_as_holders_at_once(rest);
        lemma_holders_at_most(d.hazptrs);
        lemma_holders_at_most(d2.hazptrs);
        if model::all_taken(d.hazptrs) && d2 == d.with_new_hazptr() {
            assert(d2.hazptrs.drop_last() =~= d.hazptrs);
        } else if exists|slot: int| is_reuse(d, d2, slot) {
            let slot = choose|slot: int| is_reuse(d, d2, slot);
            lemma_holders_update(
                d.hazptrs,
                slot,
                HazPtr { ptr: d.hazptrs[slot].ptr, active: true },
            );
        } else if exists|slot: int, ptr: usize| is_announcement(d, d2, slot, ptr) {
            let (slot, ptr) = choose|slot: int, ptr: usize| is_announcement(d, d2, slot, ptr);
            lemma_holders_update(d.hazptrs, slot, HazPtr { ptr, active: true });
        } else if exists|slot: int| is_end(d, d2, slot) {
            let slot = choose|slot: int| is_end(d, d2, slot);
            lemma_holders_update(d.hazptrs, slot, HazPtr { ptr: 0, active: false });
        }
    }
}

} // verus!
