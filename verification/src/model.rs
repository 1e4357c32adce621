//! What a domain is, as a mathematical value, and what the operations of a domain make of it.
use crate::deleter::Retired;
use crate::ptr::HazPtr;
use vstd::prelude::*;

verus! {

/// How far a timed cleanup moves the time before which no other one starts, in nanoseconds.
pub const SYNC_TIME_PERIOD: u64 = 2_000_000_000;

/// How many objects have to be retired before their number alone starts a cleanup.
pub const RETIRED_COUNT_THRESHOLD: isize = 1000;

/// How many retired objects there have to be for each hazard pointer before their number alone
/// starts a cleanup.
pub const HAZPTR_COUNT_MULTIPLER: isize = 2;

/// Which domain a domain is.
#[derive(Clone, Copy, Debug, PartialEq, Eq, Structural)]
pub enum DomainId {
    /// The one that all threads of a program share.
    Shared,
    /// One that a user made, told from the others by a number.
    Own(usize),
}

/// A domain as a value.
#[verifier::ext_equal]
pub struct DomainView {
    /// Which domain it is.
    pub id: DomainId,
    /// The hazard pointers, oldest first. None ever leaves, so that the place of a hazard pointer
    /// is its name.
    pub hazptrs: Seq<HazPtr>,
    /// The number of hazard pointers, as it was counted.
    pub hazptr_count: isize,
    /// The retired objects: a stack, with its top at the end.
    pub retired: Seq<Retired>,
    /// The number of retired objects, as it was counted.
    pub retired_count: isize,
    /// The time, in nanoseconds, after which the next timed cleanup may start.
    pub sync_time: u64,
    /// How many passes over the retired objects were counted in and not out: those at work, and
    /// those that found nothing to work on.
    pub nbulk_reclaims: usize,
}

impl DomainView {
    /// The domain `id` before its first use.
    pub open spec fn fresh(id: DomainId) -> Self {
        DomainView {
            id,
            hazptrs: Seq::empty(),
            hazptr_count: 0,
            retired: Seq::empty(),
            retired_count: 0,
            sync_time: 0,
            nbulk_reclaims: 0,
        }
    }

    /// The hazard pointers were counted right, as far as the counter reaches.
    pub open spec fn wf(self) -> bool {
        self.hazptrs.len() <= isize::MAX ==> self.hazptr_count == self.hazptrs.len()
    }

    /// The retired objects were counted right, as far as the counter reaches.
    pub open spec fn retired_count_exact(self) -> bool {
        self.retired.len() <= isize::MAX && self.retired_count == self.retired.len()
    }
}

/// The addresses that the active ones among the first `n` hazard pointers announce.
pub open spec fn guarded_below(hazptrs: Seq<HazPtr>, n: int) -> Set<usize> {
    Set::new(
        |p: usize|
            exists|i: int|
                0 <= i < n && (#[trigger] hazptrs[i]).active && hazptrs[i].ptr == p,
    )
}

/// The addresses that the active ones among the hazard pointers from the `n`th on announce.
pub open spec fn guarded_above(hazptrs: Seq<HazPtr>, n: int) -> Set<usize> {
    Set::new(
        |p: usize|
            exists|i: int|
                n <= i < hazptrs.len() && (#[trigger] hazptrs[i]).active && hazptrs[i].ptr == p,
    )
}

/// The addresses that active hazard pointers announce.
pub open spec fn guarded(hazptrs: Seq<HazPtr>) -> Set<usize> {
    guarded_below(hazptrs, hazptrs.len() as int)
}

/// Whether an object is at one of the addresses.
pub open spec fn is_at(addresses: Set<usize>) -> spec_fn(Retired) -> bool {
    |r: Retired| addresses.contains(r.data_ptr)
}

/// Whether an object is at none of the addresses.
pub open spec fn is_off(addresses: Set<usize>) -> spec_fn(Retired) -> bool {
    |r: Retired| !addresses.contains(r.data_ptr)
}

/// The objects of a stack that are at one of the addresses, topmost first.
pub open spec fn kept_of(stack: Seq<Retired>, addresses: Set<usize>) -> Seq<Retired> {
    stack.reverse().filter(is_at(addresses))
}

/// The objects of a stack that are at none of the addresses, topmost first.
pub open spec fn due_of(stack: Seq<Retired>, addresses: Set<usize>) -> Seq<Retired> {
    stack.reverse().filter(is_off(addresses))
}

/// Whether so many retired objects, with so many hazard pointers, start a cleanup.
pub open spec fn threshold(rc: isize, hc: isize) -> bool {
    rc >= RETIRED_COUNT_THRESHOLD && rc >= HAZPTR_COUNT_MULTIPLER * hc
}

/// The hazard pointer `slot` belongs to nobody, and every newer one to somebody.
pub open spec fn is_newest_free(hazptrs: Seq<HazPtr>, slot: int) -> bool {
    &&& 0 <= slot < hazptrs.len()
    &&& !hazptrs[slot].active
    &&& forall|j: int| slot < j < hazptrs.len() ==> (#[trigger] hazptrs[j]).active
}

/// Every hazard pointer belongs to somebody.
pub open spec fn all_taken(hazptrs: Seq<HazPtr>) -> bool {
    forall|j: int| 0 <= j < hazptrs.len() ==> (#[trigger] hazptrs[j]).active
}

/// No hazard pointer belongs to anybody.
pub open spec fn all_free(hazptrs: Seq<HazPtr>) -> bool {
    forall|j: int| 0 <= j < hazptrs.len() ==> !(#[trigger] hazptrs[j]).active
}

impl DomainView {
    /// The objects that a pass over the retired objects hands out for deletion, in order.
    pub open spec fn pass_due(self) -> Seq<Retired> {
        due_of(self.retired, guarded(self.hazptrs))
    }

    /// The objects that a pass over the retired objects puts back, in order: what it met last
    /// comes to lie on top.
    pub open spec fn pass_kept(self) -> Seq<Retired> {
        kept_of(self.retired, guarded(self.hazptrs))
    }

    /// What an undisturbed pass leaves of a domain. A pass that finds no retired object counts
    /// itself in and never out.
    pub open spec fn after_bulk_reclaim(self) -> Self {
        if self.retired.len() == 0 {
            DomainView { nbulk_reclaims: self.nbulk_reclaims.wrapping_add(1), ..self }
        } else {
            DomainView {
                retired: self.pass_kept(),
                retired_count: self.retired_count.wrapping_sub(self.pass_due().len() as isize),
                ..self
            }
        }
    }

    /// Whether a cleanup at the time `now` is a timed one.
    pub open spec fn is_timed(self, now: u64) -> bool {
        now > self.sync_time
    }

    /// Whether a cleanup at the time `now` makes a pass over the retired objects at all.
    pub open spec fn is_cleaning(self, now: u64) -> bool {
        self.is_timed(now) || threshold(self.retired_count, self.hazptr_count)
    }

    /// The domain after the time of the next timed cleanup was moved on from `now`.
    pub open spec fn after_sync(self, now: u64) -> Self {
        DomainView { sync_time: (now + SYNC_TIME_PERIOD) as u64, ..self }
    }

    /// What an undisturbed cleanup at the time `now` leaves of a domain.
    pub open spec fn after_cleanup(self, now: u64) -> Self {
        if self.is_timed(now) {
            self.after_sync(now).after_bulk_reclaim()
        } else if threshold(self.retired_count, self.hazptr_count) {
            self.after_bulk_reclaim()
        } else {
            self
        }
    }

    /// The objects that an undisturbed cleanup at the time `now` hands out for deletion.
    pub open spec fn cleanup_due(self, now: u64) -> Seq<Retired> {
        if self.is_cleaning(now) {
            self.pass_due()
        } else {
            Seq::empty()
        }
    }

    /// The domain after an object was put onto the retired ones and counted.
    pub open spec fn after_push(self, obj: Retired) -> Self {
        DomainView {
            retired: self.retired.push(obj),
            retired_count: self.retired_count.wrapping_add(1),
            ..self
        }
    }

    /// The domain with another value in the place `slot` of its hazard pointers.
    pub open spec fn with_hazptr(self, slot: int, h: HazPtr) -> Self {
        DomainView { hazptrs: self.hazptrs.update(slot, h), ..self }
    }

    /// The domain with one more hazard pointer, which is not counted yet.
    pub open spec fn with_pushed_hazptr(self) -> Self {
        DomainView { hazptrs: self.hazptrs.push(HazPtr { ptr: 0, active: true }), ..self }
    }

    /// The domain with one more hazard pointer counted.
    pub open spec fn with_hazptr_counted(self) -> Self {
        DomainView { hazptr_count: self.hazptr_count.wrapping_add(1), ..self }
    }

    /// The domain with one more hazard pointer, counted.
    pub open spec fn with_new_hazptr(self) -> Self {
        self.with_pushed_hazptr().with_hazptr_counted()
    }
}

/// Sorting a stack is sorting its top and then the rest.
pub proof fn lemma_sort_top(stack: Seq<Retired>, addresses: Set<usize>)
    ensures
        stack.len() == 0 ==> due_of(stack, addresses) == Seq::<Retired>::empty(),
        stack.len() == 0 ==> kept_of(stack, addresses) == Seq::<Retired>::empty(),
        due_of(stack, addresses).len() + kept_of(stack, addresses).len()
            == stack.len(),
        stack.len() > 0 ==> {
            let top = seq![stack.last()];
            let rest = stack.drop_last();
            if addresses.contains(stack.last().data_ptr) {
                &&& due_of(stack, addresses) == due_of(rest, addresses)
                &&& kept_of(stack, addresses) == top + kept_of(rest, addresses)
            } else {
                &&& due_of(stack, addresses) == top + due_of(rest, addresses)
                &&& kept_of(stack, addresses) == kept_of(rest, addresses)
            }
        },
    decreases stack.len(),
{
    if stack.len() == 0 {
        reveal(Seq::filter);
    } else {
        let rest = stack.drop_last();
        lemma_sort_top(rest, addresses);
        assert(stack.reverse() =~= seq![stack.last()] + rest.reverse());
        rest.reverse().lemma_filter_prepend(stack.last(), is_at(addresses));
        rest.reverse().lemma_filter_prepend(stack.last(), is_off(addresses));
        assert(Seq::<Retired>::empty() + due_of(rest, addresses) =~= due_of(
            rest,
            addresses,
        ));
        assert(Seq::<Retired>::empty() + kept_of(rest, addresses) =~= kept_of(
            rest,
            addresses,
        ));
    }
}

} // verus!
