//! The domain: the hazard pointers of its readers, and the objects that its writers retired.
//!
//! A domain is plain data, and whoever works on it has it to themselves for the time of a call:
//! nobody disturbs the methods below in their work but the [`Disposer`] that they are given. A
//! writer that lets others at the domain between one access and the next uses a
//! [`Reclaimer`](crate::reclaimer::Reclaimer) instead.
use crate::deleter::Retired;
use crate::disposer::Disposer;
use crate::domains::{Domains, DomainsView, Number};
use crate::family::Global;
use crate::model;
use crate::model::{
    DomainId, DomainView, HAZPTR_COUNT_MULTIPLER, RETIRED_COUNT_THRESHOLD, SYNC_TIME_PERIOD,
};
use crate::ptr::HazPtr;
use crate::sweep;
use crate::sweep::Swept;
use std::collections::HashSet;
use std::marker::PhantomData;
use vstd::prelude::*;

verus! {

broadcast use vstd::std_specs::hash::group_hash_axioms;

/// The hazard pointers of a domain: one that has been allocated is never given back, only marked
/// as free for the next reader.
struct HazPtrs {
    /// The newest hazard pointer is at the end, which is where a search begins.
    list: Vec<HazPtr>,
    count: isize,
}

impl HazPtrs {
    fn new() -> (h: Self)
        ensures
            h.list@ == Seq::<HazPtr>::empty(),
            h.count == 0,
    {
        HazPtrs { list: Vec::new(), count: 0 }
    }
}

/// The retired objects of a domain.
struct RetiredList {
    /// A stack, with its top at the end.
    list: Vec<Retired>,
    count: isize,
}

impl RetiredList {
    fn new() -> (r: Self)
        ensures
            r.list@ == Seq::<Retired>::empty(),
            r.count == 0,
    {
        RetiredList { list: Vec::new(), count: 0 }
    }
}

/// A domain: readers take hazard pointers from it, and writers retire objects in it. An object is
/// disposed of only once no active hazard pointer of the domain announces it.
///
/// The family `F` tells kinds of domains apart by their type.
pub struct HazPtrDomain<F> {
    hazptrs: HazPtrs,
    retired: RetiredList,
    family: PhantomData<F>,
    id: DomainId,
    sync_time: u64,
    nbulk_reclaims: usize,
}

impl<F> View for HazPtrDomain<F> {
    type V = DomainView;

    closed spec fn view(&self) -> DomainView {
        DomainView {
            id: self.id,
            hazptrs: self.hazptrs.list@,
            hazptr_count: self.hazptrs.count,
            retired: self.retired.list@,
            retired_count: self.retired.count,
            sync_time: self.sync_time,
            nbulk_reclaims: self.nbulk_reclaims,
        }
    }
}

impl HazPtrDomain<Global> {
    /// The domain that all threads of a program share.
    pub fn shared(all: &mut Domains) -> (d: &mut Self)
        ensures
            d@ == old(all)@.shared,
            final(all)@ == (DomainsView { shared: final(d)@, ..old(all)@ }),
    {
        all.shared()
    }
}

impl<F> HazPtrDomain<F> {
    /// The domain `id` before its first use.
    pub(crate) fn fresh(id: DomainId) -> (d: Self)
        ensures
            d@ == DomainView::fresh(id),
    {
        HazPtrDomain {
            hazptrs: HazPtrs::new(),
            retired: RetiredList::new(),
            family: PhantomData,
            id,
            sync_time: 0,
            nbulk_reclaims: 0,
        }
    }

    /// A domain of its own. The number tells it from the other domains of the program.
    ///
    /// Most users want the shared domain: retired objects wait for a later call to be disposed of,
    /// and in a domain of its own with few callers they may wait for good.
    pub fn new(number: Number) -> (d: Self)
        ensures
            d@ == DomainView::fresh(DomainId::Own(number@)),
    {
        Self::fresh(DomainId::Own(number.get()))
    }

    /// Which domain this is.
    pub fn id(&self) -> (id: DomainId)
        ensures
            id == self@.id,
    {
        self.id
    }

    /// How many hazard pointers there are.
    pub fn hazptrs_len(&self) -> (n: usize)
        ensures
            n == self@.hazptrs.len(),
    {
        self.hazptrs.list.len()
    }

    /// The hazard pointer `slot`.
    pub fn hazptr(&self, slot: usize) -> (h: HazPtr)
        requires
            slot < self@.hazptrs.len(),
        ensures
            h == self@.hazptrs[slot as int],
    {
        self.hazptrs.list[slot]
    }

    /// Puts another value in the place `slot` of the hazard pointers.
    pub(crate) fn set_hazptr(&mut self, slot: usize, h: HazPtr)
        requires
            slot < old(self)@.hazptrs.len(),
        ensures
            final(self)@ == old(self)@.with_hazptr(slot as int, h),
    {
        self.hazptrs.list[slot] = h;
    }

    /// Makes a hazard pointer that is taken from the start, without counting it, and returns its
    /// place.
    pub(crate) fn push_hazptr(&mut self) -> (slot: usize)
        ensures
            slot == old(self)@.hazptrs.len(),
            final(self)@ == old(self)@.with_pushed_hazptr(),
    {
        let slot: usize = self.hazptrs.list.len();
        self.hazptrs.list.push(HazPtr::new());
        slot
    }

    /// Counts a hazard pointer.
    pub(crate) fn count_hazptr(&mut self)
        ensures
            final(self)@ == old(self)@.with_hazptr_counted(),
    {
        self.hazptrs.count = self.hazptrs.count.wrapping_add(1);
    }

    /// The number of hazard pointers, as it was counted.
    pub fn hazptr_count(&self) -> (n: isize)
        ensures
            n == self@.hazptr_count,
    {
        self.hazptrs.count
    }

    /// How many objects are retired.
    pub fn retired_len(&self) -> (n: usize)
        ensures
            n == self@.retired.len(),
    {
        self.retired.list.len()
    }

    /// The number of retired objects, as it was counted.
    pub fn retired_count(&self) -> (n: isize)
        ensures
            n == self@.retired_count,
    {
        self.retired.count
    }

    /// The time, in nanoseconds, after which the next timed cleanup may start.
    pub fn sync_time(&self) -> (time: u64)
        ensures
            time == self@.sync_time,
    {
        self.sync_time
    }

    /// How many passes over the retired objects were counted in and not out: those at work, and
    /// those that found nothing to work on.
    pub fn nbulk_reclaims(&self) -> (n: usize)
        ensures
            n == self@.nbulk_reclaims,
    {
        self.nbulk_reclaims
    }

    /// Puts an object onto the retired ones, without counting it.
    pub(crate) fn push_retired(&mut self, obj: Retired)
        ensures
            final(self)@ == (DomainView { retired: old(self)@.retired.push(obj), ..old(self)@ }),
    {
        self.retired.list.push(obj);
    }

    /// Takes all the retired objects away.
    pub(crate) fn steal_retired(&mut self) -> (stolen: Vec<Retired>)
        ensures
            stolen@ == old(self)@.retired,
            final(self)@ == (DomainView { retired: Seq::empty(), ..old(self)@ }),
    {
        let mut stolen: Vec<Retired> = Vec::new();
        std::mem::swap(&mut stolen, &mut self.retired.list);
        stolen
    }

    /// Puts objects that were taken away onto the retired ones again, in order.
    pub(crate) fn splice_retired(&mut self, objs: &mut Vec<Retired>)
        ensures
            final(self)@ == (DomainView {
                retired: old(self)@.retired + old(objs)@,
                ..old(self)@
            }),
            final(objs)@ == Seq::<Retired>::empty(),
    {
        self.retired.list.append(objs);
    }

    /// Sets the counter of retired objects.
    pub(crate) fn set_retired_count(&mut self, n: isize)
        ensures
            final(self)@ == (DomainView { retired_count: n, ..old(self)@ }),
    {
        self.retired.count = n;
    }

    /// Sets the time after which the next timed cleanup may start.
    pub(crate) fn set_sync_time(&mut self, time: u64)
        ensures
            final(self)@ == (DomainView { sync_time: time, ..old(self)@ }),
    {
        self.sync_time = time;
    }

    /// Sets the number of passes that were counted in and not out.
    pub(crate) fn set_nbulk_reclaims(&mut self, n: usize)
        ensures
            final(self)@ == (DomainView { nbulk_reclaims: n, ..old(self)@ }),
    {
        self.nbulk_reclaims = n;
    }

    /// Takes a hazard pointer that nobody owns, or makes one if there is none, and returns its
    /// place.
    pub fn acquire(&mut self) -> (slot: usize)
        ensures
            !model::all_taken(old(self)@.hazptrs) ==> {
                &&& model::is_newest_free(old(self)@.hazptrs, slot as int)
                &&& final(self)@ == old(self)@.with_hazptr(
                    slot as int,
                    HazPtr { ptr: old(self)@.hazptrs[slot as int].ptr, active: true },
                )
            },
            model::all_taken(old(self)@.hazptrs) ==> {
                &&& slot == old(self)@.hazptrs.len()
                &&& final(self)@ == old(self)@.with_new_hazptr()
            },
    {
        if let Some(slot) = self.try_acquire_existing() {
            return slot;
        }
        self.acquire_new()
    }

    /// Takes the newest hazard pointer that nobody owns, if there is one, and returns its place.
    pub fn try_acquire_existing(&mut self) -> (taken: Option<usize>)
        ensures
            match taken {
                Some(slot) => {
                    &&& model::is_newest_free(old(self)@.hazptrs, slot as int)
                    &&& final(self)@ == old(self)@.with_hazptr(
                        slot as int,
                        HazPtr { ptr: old(self)@.hazptrs[slot as int].ptr, active: true },
                    )
                },
                None => model::all_taken(old(self)@.hazptrs) && final(self)@ == old(self)@,
            },
    {
        let mut node: usize = self.hazptrs.list.len();
        while node > 0
            invariant
                node <= self@.hazptrs.len(),
                self@ == old(self)@,
                forall|j: int|
                    node <= j < self@.hazptrs.len() ==> (#[trigger] self@.hazptrs[j]).active,
            decreases node,
        {
            node = node - 1;
            let mut n: HazPtr = self.hazptrs.list[node];
            if n.try_acquire() {
                self.hazptrs.list[node] = n;
                return Some(node);
            }
        }
        None
    }

    /// Makes a hazard pointer that belongs to the caller from the start, and returns its place.
    pub fn acquire_new(&mut self) -> (slot: usize)
        ensures
            slot == old(self)@.hazptrs.len(),
            final(self)@ == old(self)@.with_new_hazptr(),
    {
        let slot: usize = self.push_hazptr();
        self.count_hazptr();
        slot
    }

    /// Puts an object onto the retired ones, and then cleans up if it is time to. `due` disposes of
    /// what is due for deletion.
    pub fn retire<D: Disposer<F>>(&mut self, obj: Retired, now: u64, due: &mut D)
        requires
            old(self)@.is_timed(now) ==> now + SYNC_TIME_PERIOD <= u64::MAX,
        ensures
            ({
                let o = sweep::cleanup::<F, D>(
                    old(due).state(),
                    old(self)@.after_push(obj),
                    now,
                );
                final(self)@ == o.domain && final(due).state() == o.state
            }),
    {
        // Counted before anyone gets a chance to reclaim it, so that the count is never too low.
        self.retired.count = self.retired.count.wrapping_add(1);
        self.retired.list.push(obj);
        self.check_cleanup_and_reclaim(now, due);
    }

    /// Cleans up if a timed cleanup has become due, or if enough objects are retired.
    pub fn check_cleanup_and_reclaim<D: Disposer<F>>(&mut self, now: u64, due: &mut D)
        requires
            old(self)@.is_timed(now) ==> now + SYNC_TIME_PERIOD <= u64::MAX,
        ensures
            ({
                let o = sweep::cleanup::<F, D>(old(due).state(), old(self)@, now);
                final(self)@ == o.domain && final(due).state() == o.state
            }),
    {
        if self.try_timed_cleanup(now, due) {
            return;
        }
        if Self::reached_threshold(self.retired.count, self.hazptrs.count) {
            self.try_bulk_reclaim(due);
        }
    }

    /// Makes the timed cleanup if it has become due, and says whether it did.
    pub fn try_timed_cleanup<D: Disposer<F>>(&mut self, now: u64, due: &mut D) -> (cleaned: bool)
        requires
            old(self)@.is_timed(now) ==> now + SYNC_TIME_PERIOD <= u64::MAX,
        ensures
            cleaned == old(self)@.is_timed(now),
            cleaned ==> {
                let o = sweep::bulk::<F, D>(old(due).state(), old(self)@.after_sync(now), true);
                final(self)@ == o.domain && final(due).state() == o.state
            },
            !cleaned ==> final(self)@ == old(self)@ && final(due).state() == old(due).state(),
    {
        if !self.check_sync_time(now) {
            return false;
        }
        self.relaxed_cleanup(due);
        true
    }

    /// Makes passes over the retired objects, as a timed cleanup does.
    pub fn relaxed_cleanup<D: Disposer<F>>(&mut self, due: &mut D)
        ensures
            ({
                let o = sweep::bulk::<F, D>(old(due).state(), old(self)@, true);
                final(self)@ == o.domain && final(due).state() == o.state
            }),
    {
        self.bulk_reclaim(true, due);
    }

    /// Whether a timed cleanup is due at the time `now`, in nanoseconds. If it is, the next one
    /// has to wait.
    pub fn check_sync_time(&mut self, now: u64) -> (is_due: bool)
        requires
            old(self)@.is_timed(now) ==> now + SYNC_TIME_PERIOD <= u64::MAX,
        ensures
            is_due == old(self)@.is_timed(now),
            is_due ==> final(self)@ == old(self)@.after_sync(now),
            !is_due ==> final(self)@ == old(self)@,
    {
        let sync_time = self.sync_time;
        if now > sync_time {
            self.sync_time = now + SYNC_TIME_PERIOD;
            true
        } else {
            false
        }
    }

    /// Whether `rc` retired objects are many enough, with `hc` hazard pointers, to start a
    /// cleanup.
    pub fn reached_threshold(rc: isize, hc: isize) -> (reached: bool)
        ensures
            reached == model::threshold(rc, hc),
            reached == (rc >= 1000 && rc >= 2 * hc),
    {
        rc >= RETIRED_COUNT_THRESHOLD && rc / HAZPTR_COUNT_MULTIPLER >= hc
    }

    /// Makes a pass over the retired objects if there are enough of them.
    pub fn try_bulk_reclaim<D: Disposer<F>>(&mut self, due: &mut D)
        ensures
            ({
                let enough = model::threshold(old(self)@.retired_count, old(self)@.hazptr_count);
                let o = sweep::bulk::<F, D>(old(due).state(), old(self)@, false);
                &&& enough ==> final(self)@ == o.domain && final(due).state() == o.state
                &&& !enough ==> final(self)@ == old(self)@ && final(due).state() == old(
                    due,
                ).state()
            }),
    {
        let hc = self.hazptrs.count;
        let rc = self.retired.count;
        if !Self::reached_threshold(rc, hc) {
            return;
        }
        self.bulk_reclaim(false, due);
    }

    /// Makes a pass over the retired objects: those that no active hazard pointer announces are
    /// disposed of, and the others stay. If objects were retired by that, a transitive call makes
    /// another pass. Returns how many objects the passes have disposed of.
    pub fn bulk_reclaim<D: Disposer<F>>(&mut self, transitive: bool, due: &mut D) -> (reclaimed:
        usize)
        ensures
            (Swept { state: final(due).state(), domain: final(self)@, reclaimed })
                == sweep::bulk::<F, D>(old(due).state(), old(self)@, transitive),
    {
        self.nbulk_reclaims = self.nbulk_reclaims.wrapping_add(1);
        let mut reclaimed: usize = 0;
        loop
            invariant_except_break
                sweep::passes::<F, D>(due.state(), self@, transitive, reclaimed) == sweep::bulk::<
                    F,
                    D,
                >(old(due).state(), old(self)@, transitive),
            ensures
                ({
                    let o = sweep::bulk::<F, D>(old(due).state(), old(self)@, transitive);
                    &&& due.state() == o.state
                    &&& reclaimed == o.reclaimed
                    &&& o.domain == (DomainView {
                        nbulk_reclaims: self@.nbulk_reclaims.wrapping_sub(1),
                        ..self@
                    })
                }),
            decreases D::patience(due.state()),
        {
            let ghost begun = self@;
            let ghost d0 = DomainView { retired: Seq::empty(), ..begun };
            proof {
                sweep::lemma_patience_all::<F, D>(due.state(), d0, begun.pass_due());
            }
            let steal = self.steal_retired();
            if steal.len() == 0 {
                assert(self@ =~= begun);
                return reclaimed;
            }
            let guarded_ptrs = self.guarded_ptrs();
            let (reclaimed_now, done) = self.bulk_lookup_and_reclaim(steal, guarded_ptrs, due);
            reclaimed = reclaimed.wrapping_add(reclaimed_now);
            if done || !transitive {
                break;
            }
        }
        self.nbulk_reclaims = self.nbulk_reclaims.wrapping_sub(1);
        reclaimed
    }

    /// Collects the addresses that active hazard pointers announce.
    fn guarded_ptrs(&self) -> (ptrs: HashSet<usize>)
        ensures
            ptrs@ == model::guarded(self@.hazptrs),
    {
        let mut ptrs: HashSet<usize> = HashSet::new();
        let mut node: usize = self.hazptrs.list.len();
        proof {
            assert(Set::<usize>::empty() =~= model::guarded_above(self@.hazptrs, node as int));
        }
        while node > 0
            invariant
                node <= self@.hazptrs.len(),
                ptrs@ == model::guarded_above(self@.hazptrs, node as int),
            decreases node,
        {
            node = node - 1;
            let n: HazPtr = self.hazptrs.list[node];
            if n.active {
                ptrs.insert(n.ptr);
            }
            proof {
                assert(ptrs@ =~= model::guarded_above(self@.hazptrs, node as int));
            }
        }
        proof {
            assert(ptrs@ =~= model::guarded(self@.hazptrs));
        }
        ptrs
    }

    /// Sorts stolen objects, topmost first, into those that are due and those whose address is
    /// guarded: disposes of the former, takes them off the count, and puts the latter back. Returns
    /// how many were due and whether no object had been retired since.
    pub fn bulk_lookup_and_reclaim<D: Disposer<F>>(
        &mut self,
        stolen_retired: Vec<Retired>,
        guarded_ptrs: HashSet<usize>,
        due: &mut D,
    ) -> (r: (usize, bool))
        ensures
            (final(due).state(), final(self)@) == sweep::looked_up::<F, D>(
                old(due).state(),
                old(self)@,
                stolen_retired@,
                guarded_ptrs@,
            ),
            r.0 == model::due_of(stolen_retired@, guarded_ptrs@).len(),
            r.1 == sweep::is_done::<F, D>(
                old(due).state(),
                old(self)@,
                stolen_retired@,
                guarded_ptrs@,
            ),
    {
        let mut node: usize = stolen_retired.len();
        let mut remaining: Vec<Retired> = Vec::new();
        let mut reclaim_count: usize = 0;
        let ghost walk = stolen_retired@.reverse();
        proof {
            reveal(Seq::filter);
        }
        while node > 0
            invariant
                node <= stolen_retired@.len(),
                walk == stolen_retired@.reverse(),
                walk.len() <= usize::MAX,
                reclaim_count <= walk.len() - node,
                (due.state(), self@) == sweep::disposed::<F, D>(
                    old(due).state(),
                    old(self)@,
                    walk.take(walk.len() - node).filter(model::is_off(guarded_ptrs@)),
                ),
                reclaim_count == walk.take(walk.len() - node).filter(
                    model::is_off(guarded_ptrs@),
                ).len(),
                remaining@ == walk.take(walk.len() - node).filter(model::is_at(guarded_ptrs@)),
            decreases node,
        {
            let ghost seen = walk.take(walk.len() - node);
            node = node - 1;
            let n: Retired = stolen_retired[node];
            proof {
                broadcast use Seq::lemma_filter_push;

                assert(walk.take(walk.len() - node) =~= seen.push(n));
                let off = seen.filter(model::is_off(guarded_ptrs@));
                assert(off.push(n).drop_last() =~= off);
            }
            if !guarded_ptrs.contains(&n.data_ptr) {
                due.dispose(self, n);
                reclaim_count = reclaim_count + 1;
            } else {
                remaining.push(n);
            }
        }
        proof {
            assert(walk.take(walk.len() as int) =~= walk);
        }
        let done = self.retired.list.len() == 0;
        self.retired.count = self.retired.count.wrapping_sub(reclaim_count as isize);
        if remaining.len() == 0 {
            assert(self@.retired + remaining@ =~= self@.retired);
            return (reclaim_count, done);
        }
        self.retired.list.append(&mut remaining);
        (reclaim_count, done)
    }

    /// Disposes at once of the retired objects that no active hazard pointer announces, and of
    /// those that are retired by that. Returns how many they are. Whether to `block` makes no
    /// difference.
    pub fn eager_reclaim<D: Disposer<F>>(&mut self, block: bool, due: &mut D) -> (reclaimed: usize)
        ensures
            (Swept { state: final(due).state(), domain: final(self)@, reclaimed })
                == sweep::bulk::<F, D>(old(due).state(), old(self)@, true),
    {
        self.bulk_reclaim(true, due)
    }

    /// Gives the hazard pointer `slot` up.
    pub fn release(&mut self, slot: usize)
        requires
            slot < old(self)@.hazptrs.len(),
        ensures
            final(self)@ == old(self)@.with_hazptr(
                slot as int,
                HazPtr { ptr: old(self)@.hazptrs[slot as int].ptr, active: false },
            ),
    {
        let mut n: HazPtr = self.hazptrs.list[slot];
        n.release();
        self.hazptrs.list[slot] = n;
    }

    /// Ends the domain, after every reader has given its hazard pointer up: disposes of all the
    /// retired objects, topmost first, which must not retire any more here. Returns how many they
    /// were.
    pub fn drop<D: Disposer<F>>(self, due: &mut D) -> (reclaimed: usize)
        requires
            ({
                let o = sweep::bulk::<F, D>(old(due).state(), self@, false);
                o.domain.retired.len() == 0 && model::all_free(o.domain.hazptrs)
            }),
        ensures
            ({
                let o = sweep::bulk::<F, D>(old(due).state(), self@, false);
                final(due).state() == o.state && reclaimed == o.reclaimed
            }),
    {
        let mut domain = self;
        domain.bulk_reclaim(false, due)
    }
}

/// The time, in nanoseconds since the epoch, as a domain takes it, unless it is too far in the
/// future.
pub fn clock_time(nanos: u128) -> (time: Option<u64>)
    ensures
        nanos <= u64::MAX ==> time == Some(nanos as u64),
        nanos > u64::MAX ==> time is None,
{
    if nanos <= u64::MAX as u128 {
        Some(nanos as u64)
    } else {
        None
    }
}

} // verus!
