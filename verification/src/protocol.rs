//! Why it is safe: threads that use a domain in any order, one access after the other.
//!
//! A [`World`] is a domain together with everything around it that matters: the reclaimers at
//! work, what the readers believe, the places from which readers read addresses, and what has
//! become of the object at each address. An [`Event`] is one access by one thread. The promise of
//! hazard pointers is that no sequence of events, in whatever order the threads come, hands an
//! object out for deletion while some reader is protecting it.
use crate::acquirer::{AcquirerView, Search};
use crate::deleter::Retired;
use crate::holder::HolderView;
use crate::laws;
use crate::model;
use crate::model::DomainView;
use crate::ptr::HazPtr;
use crate::reclaimer::{Phase, ReclaimerView};
use crate::undisturbed;
use vstd::prelude::*;

verus! {

/// What the owner of a hazard pointer is doing.
pub enum Reader {
    /// Nobody owns the hazard pointer.
    Nobody,
    /// Nothing is protected.
    Idle,
    /// The address `ptr`, which was read from `link`, is announced, and `link` was not read again
    /// yet.
    Announced { link: int, ptr: usize },
    /// The object at the address is protected, and the reader may use it.
    Protecting { ptr: usize },
}

/// What has become of the object at an address.
pub enum Fate {
    /// There is no object, or it was handed out for deletion.
    Free,
    /// There is an object that nobody has retired.
    Live,
    /// There is an object among the retired ones of the domain.
    Waiting,
    /// There is a retired object that this reclaimer has hold of.
    Held(int),
}

/// A domain and all that goes on around it.
pub struct World {
    pub domain: DomainView,
    /// The reclaimers, in the order in which they began.
    pub reclaimers: Seq<ReclaimerView>,
    /// The readers, in the order of their hazard pointers.
    pub readers: Seq<Reader>,
    /// The places that readers read addresses from.
    pub links: Map<int, usize>,
    pub fates: Map<usize, Fate>,
}

/// One access by one thread.
pub enum Event {
    /// An object comes into being.
    Allocate { ptr: usize },
    /// A writer makes a link point somewhere else.
    Store { link: int, ptr: usize },
    /// A writer begins to retire an object that no link points to any more.
    Retire { obj: Retired },
    /// Somebody begins to clean up.
    Cleanup,
    /// Somebody begins to reclaim.
    Bulk { transitive: bool },
    /// A reclaimer makes its next step.
    Step { reclaimer: int, now: u64 },
    /// A reader takes a hazard pointer that nobody owns.
    Acquire { slot: int },
    /// A reader makes a hazard pointer.
    AcquireNew,
    /// A reader counts a hazard pointer that it has made.
    CountHazPtr,
    /// A reader announces an address that it has read from a link.
    Announce { slot: int, link: int, ptr: usize },
    /// A reader reads the link again and sees whether its announcement protects the object.
    Validate { slot: int },
    /// A reader stops announcing.
    Reset { slot: int },
    /// A reader that protects nothing gives its hazard pointer up.
    Release { slot: int },
}

/// One of the objects is at the address.
pub open spec fn has_at(objs: Seq<Retired>, ptr: usize) -> bool {
    exists|i: int| 0 <= i < objs.len() && (#[trigger] objs[i]).data_ptr == ptr
}

/// No two of the objects are at the same address.
pub open spec fn distinct(objs: Seq<Retired>) -> bool {
    forall|i: int, j: int|
        0 <= i < j < objs.len() ==> (#[trigger] objs[i]).data_ptr != (#[trigger] objs[j]).data_ptr
}

/// Exactly one of the objects is at the address.
pub open spec fn once_at(objs: Seq<Retired>, ptr: usize) -> bool {
    exists|i: int|
        0 <= i < objs.len() && (#[trigger] objs[i]).data_ptr == ptr && forall|j: int|
            0 <= j < objs.len() && (#[trigger] objs[j]).data_ptr == ptr ==> j == i
}

/// The reclaimer has hold of the object at the address.
pub open spec fn has_hold(r: ReclaimerView, ptr: usize) -> bool {
    has_at(r.in_hand(), ptr) || has_at(r.stolen, ptr) || has_at(r.kept, ptr)
}

/// If the hazard pointer `slot` goes on announcing `ptr`, the reclaimer will find it so before it
/// looks its stolen objects up, or has found it so already.
pub open spec fn will_see(r: ReclaimerView, slot: int, ptr: usize) -> bool {
    match r.phase {
        Phase::LoadActive(n) => slot < n || r.guarded.contains(ptr),
        Phase::LoadPtr(n) => slot <= n || r.guarded.contains(ptr),
        Phase::Lookup => r.guarded.contains(ptr),
        _ => true,
    }
}

impl World {
    /// A world in which nobody has done anything: the domain is fresh, and every link is null.
    pub open spec fn is_initial(self) -> bool {
        &&& self.domain == DomainView::fresh(self.domain.id)
        &&& self.reclaimers.len() == 0
        &&& self.readers.len() == 0
        &&& forall|l: int| #[trigger] self.links.dom().contains(l) ==> self.links[l] == 0
        &&& forall|p: usize| #[trigger] self.fates.dom().contains(p) && self.fates[p] is Free
    }

    /// The slot is that of a hazard pointer that some reader owns.
    pub open spec fn is_owned(self, slot: int) -> bool {
        0 <= slot < self.readers.len() && !(self.readers[slot] is Nobody)
    }

    /// The event can happen, given that its thread plays by the rules: only objects that were not
    /// retired are linked, only objects that are linked nowhere are retired, and each of them
    /// once.
    pub open spec fn allows(self, e: Event) -> bool {
        match e {
            Event::Allocate { ptr } => ptr != 0 && self.fates[ptr] is Free,
            Event::Store { link, ptr } => self.links.dom().contains(link) && (ptr == 0
                || self.fates[ptr] is Live),
            Event::Retire { obj } => {
                &&& obj.data_ptr != 0
                &&& self.fates[obj.data_ptr] is Live
                &&& forall|l: int| #[trigger]
                    self.links.dom().contains(l) ==> self.links[l] != obj.data_ptr
            },
            Event::Cleanup => true,
            Event::Bulk { transitive } => true,
            Event::Step { reclaimer, now } => 0 <= reclaimer < self.reclaimers.len()
                && self.reclaimers[reclaimer].can_tell(self.domain, now),
            Event::Acquire { slot } => 0 <= slot < self.domain.hazptrs.len()
                && !self.domain.hazptrs[slot].active,
            Event::AcquireNew => self.domain.hazptrs.len() < usize::MAX,
            Event::CountHazPtr => true,
            Event::Announce { slot, link, ptr } => self.is_owned(slot) && self.links.dom().contains(
                link,
            ),
            Event::Validate { slot } => self.is_owned(slot) && self.readers[slot] is Announced,
            Event::Reset { slot } => self.is_owned(slot),
            Event::Release { slot } => self.is_owned(slot) && self.readers[slot] is Idle,
        }
    }

    /// The world with another reader and another value of its hazard pointer.
    pub open spec fn with_reader(self, slot: int, h: HazPtr, reader: Reader) -> World {
        World {
            domain: self.domain.with_hazptr(slot, h),
            readers: self.readers.update(slot, reader),
            ..self
        }
    }

    /// The world with one more reclaimer.
    pub open spec fn with_reclaimer(self, phase: Phase, transitive: bool) -> World {
        let r = ReclaimerView::starting(self.domain.id, phase, transitive);
        World { reclaimers: self.reclaimers.push(r), ..self }
    }

    /// What becomes of the object at an address by the next step of a reclaimer.
    pub open spec fn fate_after_step(self, t: int, now: u64, ptr: usize) -> Fate {
        let r = self.reclaimers[t];
        let due = r.step(self.domain, now).due;
        if due is Some && due->0.data_ptr == ptr {
            Fate::Free
        } else if r.phase is Push && r.phase->Push_0.data_ptr == ptr {
            Fate::Waiting
        } else if r.phase is Steal && has_at(self.domain.retired, ptr) {
            Fate::Held(t)
        } else if r.phase is Splice && has_at(r.kept, ptr) {
            Fate::Waiting
        } else {
            self.fates[ptr]
        }
    }

    /// The world after an event.
    pub open spec fn after(self, e: Event) -> World {
        match e {
            Event::Allocate { ptr } => World { fates: self.fates.insert(ptr, Fate::Live), ..self },
            Event::Store { link, ptr } => World { links: self.links.insert(link, ptr), ..self },
            Event::Retire { obj } => World {
                fates: self.fates.insert(
                    obj.data_ptr,
                    Fate::Held(self.reclaimers.len() as int),
                ),
                ..self.with_reclaimer(Phase::CountRetired(obj), false)
            },
            Event::Cleanup => self.with_reclaimer(Phase::LoadSyncTime, false),
            Event::Bulk { transitive } => self.with_reclaimer(Phase::Begin, transitive),
            Event::Step { reclaimer, now } => {
                let s = self.reclaimers[reclaimer].step(self.domain, now);
                World {
                    domain: s.domain,
                    reclaimers: self.reclaimers.update(reclaimer, s.reclaimer),
                    fates: Map::new(
                        |p: usize| true,
                        |p: usize| self.fate_after_step(reclaimer, now, p),
                    ),
                    ..self
                }
            },
            Event::Acquire { slot } => self.with_reader(
                slot,
                HazPtr { active: true, ..self.domain.hazptrs[slot] },
                Reader::Idle,
            ),
            Event::AcquireNew => World {
                domain: self.domain.with_pushed_hazptr(),
                readers: self.readers.push(Reader::Idle),
                ..self
            },
            Event::CountHazPtr => World { domain: self.domain.with_hazptr_counted(), ..self },
            Event::Announce { slot, link, ptr } => self.with_reader(
                slot,
                HazPtr { ptr, ..self.domain.hazptrs[slot] },
                Reader::Announced { link, ptr },
            ),
            Event::Validate { slot } => {
                let link = self.readers[slot]->link;
                let ptr = self.readers[slot]->Announced_ptr;
                let reader = if self.links[link] == ptr && ptr != 0 {
                    Reader::Protecting { ptr }
                } else {
                    Reader::Idle
                };
                World { readers: self.readers.update(slot, reader), ..self }
            },
            Event::Reset { slot } => self.with_reader(
                slot,
                HazPtr { ptr: 0, ..self.domain.hazptrs[slot] },
                Reader::Idle,
            ),
            Event::Release { slot } => self.with_reader(
                slot,
                HazPtr { active: false, ..self.domain.hazptrs[slot] },
                Reader::Nobody,
            ),
        }
    }

    /// The hazard pointer of every reader announces what the reader has announced.
    pub open spec fn readers_ok(self) -> bool {
        &&& self.readers.len() == self.domain.hazptrs.len() <= usize::MAX
        &&& forall|i: int|
            0 <= i < self.readers.len() ==> match #[trigger] self.readers[i] {
                Reader::Nobody => true,
                Reader::Idle => self.domain.hazptrs[i].active,
                Reader::Announced { link, ptr } => self.domain.hazptrs[i] == (HazPtr {
                    ptr,
                    active: true,
                }) && self.links.dom().contains(link),
                Reader::Protecting { ptr } => self.domain.hazptrs[i] == (HazPtr {
                    ptr,
                    active: true,
                }) && ptr != 0,
            }
    }

    /// Links point to live objects only.
    pub open spec fn links_ok(self) -> bool {
        forall|l: int| #[trigger]
            self.links.dom().contains(l) ==> self.links[l] == 0 || self.fates[self.links[l]] is Live
    }

    /// Every retired object is in one place.
    pub open spec fn retired_ok(self) -> bool {
        &&& distinct(self.domain.retired)
        &&& forall|i: int|
            0 <= i < self.domain.retired.len()
                ==> self.fates[(#[trigger] self.domain.retired[i]).data_ptr] is Waiting
    }

    /// The reclaimer has hold of the objects that it works on, each once.
    pub open spec fn reclaimer_ok(self, t: int) -> bool {
        let r = self.reclaimers[t];
        &&& distinct(r.stolen + r.kept)
        &&& forall|i: int|
            0 <= i < r.stolen.len() ==> self.fates[(#[trigger] r.stolen[i]).data_ptr] == Fate::Held(
                t,
            )
        &&& forall|i: int|
            0 <= i < r.kept.len() ==> self.fates[(#[trigger] r.kept[i]).data_ptr] == Fate::Held(t)
        &&& forall|i: int|
            0 <= i < r.in_hand().len() ==> self.fates[(
            #[trigger] r.in_hand()[i]).data_ptr] == Fate::Held(t)
        &&& r.is_tidy()
        &&& r.phase matches Phase::LoadActive(n) ==> n <= self.domain.hazptrs.len()
        &&& r.phase matches Phase::LoadPtr(n) ==> n < self.domain.hazptrs.len()
    }

    /// The object at the address, if it is retired and was not handed out, is where its fate says.
    pub open spec fn placed_ok(self, ptr: usize) -> bool {
        match self.fates[ptr] {
            Fate::Waiting => has_at(self.domain.retired, ptr),
            Fate::Held(t) => 0 <= t < self.reclaimers.len() && has_hold(self.reclaimers[t], ptr),
            _ => true,
        }
    }

    /// An object at the address is among the retired ones of the domain, or some reclaimer has hold
    /// of it.
    pub open spec fn has_retired(self, ptr: usize) -> bool {
        ||| has_at(self.domain.retired, ptr)
        ||| exists|t: int|
            0 <= t < self.reclaimers.len() && has_hold(#[trigger] self.reclaimers[t], ptr)
    }

    /// No reclaimer is at work.
    pub open spec fn is_quiet(self) -> bool {
        forall|t: int|
            0 <= t < self.reclaimers.len() ==> (#[trigger] self.reclaimers[t]).phase is Finished
    }

    /// The hazard pointer is active and announces the address.
    pub open spec fn announces(self, slot: int, ptr: usize) -> bool {
        &&& 0 <= slot < self.domain.hazptrs.len()
        &&& self.domain.hazptrs[slot] == (HazPtr { ptr, active: true })
    }

    /// The hazard pointer keeps the object at the address from deletion: the object was not handed
    /// out, and as long as the address stays announced, no reclaimer that has hold of the object
    /// will hand it out.
    pub open spec fn shields(self, slot: int, ptr: usize) -> bool {
        &&& self.announces(slot, ptr)
        &&& !(self.fates[ptr] is Free)
        &&& forall|t: int|
            0 <= t < self.reclaimers.len() && has_at((#[trigger] self.reclaimers[t]).stolen, ptr)
                ==> will_see(self.reclaimers[t], slot, ptr)
    }

    /// What a reader is protecting, its hazard pointer shields.
    pub open spec fn protected_ok(self, slot: int) -> bool {
        self.readers[slot] matches Reader::Protecting { ptr } ==> self.shields(slot, ptr)
    }

    /// What holds of every world that events lead to.
    pub open spec fn inv(self) -> bool {
        &&& forall|p: usize| #[trigger] self.fates.dom().contains(p)
        &&& self.readers_ok()
        &&& self.links_ok()
        &&& self.retired_ok()
        &&& forall|t: int| 0 <= t < self.reclaimers.len() ==> #[trigger] self.reclaimer_ok(t)
        &&& forall|p: usize| #[trigger] self.placed_ok(p)
        &&& forall|slot: int|
            0 <= slot < self.readers.len() ==> #[trigger] self.protected_ok(slot)
    }
}

/// What a step does to the fates, by what the reclaimer does.
proof fn lemma_fates(w: World, t: int, now: u64)
    requires
        w.inv(),
        0 <= t < w.reclaimers.len(),
    ensures
        ({
            let w2 = w.after(Event::Step { reclaimer: t, now });
            let r = w.reclaimers[t];
            &&& forall|p: usize| #[trigger] w2.fates[p] == w.fate_after_step(t, now, p)
            &&& !(r.phase is Push || r.phase is Steal || r.phase is Splice || r.phase is Lookup)
                ==> w2.fates =~= w.fates
            &&& !(r.phase is Lookup) ==> r.step(w.domain, now).due is None
            &&& forall|p: usize| #[trigger] w2.fates[p] != w.fates[p] ==> w.fates[p] is Waiting
                || w.fates[p] == Fate::Held(t)
        }),
{
    let w2 = w.after(Event::Step { reclaimer: t, now });
    let r = w.reclaimers[t];
    assert(forall|p: usize| w.fates.dom().contains(p));
    assert(w.reclaimer_ok(t));
    if r.phase is Lookup && r.stolen.len() > 0 {
        assert(r.stolen[r.stolen.len() - 1] == r.stolen.last());
    }
    if r.phase is Push {
        assert(r.in_hand()[0] == r.phase->Push_0);
    }
    assert forall|p: usize| #[trigger] w2.fates[p] != w.fates[p] implies w.fates[p] is Waiting
        || w.fates[p] == Fate::Held(t) by {
        if r.phase is Steal && has_at(w.domain.retired, p) {
            let i = choose|i: int|
                0 <= i < w.domain.retired.len() && (#[trigger] w.domain.retired[i]).data_ptr == p;
            assert(w.fates[w.domain.retired[i].data_ptr] is Waiting);
        }
        if r.phase is Splice && has_at(r.kept, p) {
            let i = choose|i: int| 0 <= i < r.kept.len() && (#[trigger] r.kept[i]).data_ptr == p;
            assert(w.fates[r.kept[i].data_ptr] == Fate::Held(t));
        }
    }
}

/// A step of a reclaimer leaves every retired object in one place.
proof fn lemma_step_retired(w: World, t: int, now: u64)
    requires
        w.inv(),
        0 <= t < w.reclaimers.len(),
    ensures
        w.after(Event::Step { reclaimer: t, now }).retired_ok(),
{
    let w2 = w.after(Event::Step { reclaimer: t, now });
    let r = w.reclaimers[t];
    lemma_fates(w, t, now);
    assert(w.reclaimer_ok(t));
    match r.phase {
        Phase::Push(obj) => {
            assert(r.in_hand()[0] == obj);
            assert(w2.fates[obj.data_ptr] is Waiting);
            assert forall|i: int| 0 <= i < w.domain.retired.len() implies (
            #[trigger] w.domain.retired[i]).data_ptr != obj.data_ptr by {}
        },
        Phase::Splice => {
            let all = w2.domain.retired;
            let n = w.domain.retired.len();
            assert forall|i: int| 0 <= i < all.len() implies w2.fates[(
            #[trigger] all[i]).data_ptr] is Waiting by {
                if i >= n {
                    assert(r.kept[i - n] == all[i]);
                    assert(has_at(r.kept, all[i].data_ptr));
                } else {
                    assert(w.domain.retired[i] == all[i]);
                }
            }
            assert forall|i: int, j: int| 0 <= i < j < all.len() implies (
            #[trigger] all[i]).data_ptr != (#[trigger] all[j]).data_ptr by {
                if j < n {
                    assert(w.domain.retired[i] == all[i] && w.domain.retired[j] == all[j]);
                } else if i >= n {
                    let both = r.stolen + r.kept;
                    assert(both[r.stolen.len() + i - n] == all[i]);
                    assert(both[r.stolen.len() + j - n] == all[j]);
                } else {
                    assert(w.domain.retired[i] == all[i] && r.kept[j - n] == all[j]);
                }
            }
        },
        Phase::Lookup => {
            if r.stolen.len() > 0 {
                assert(r.stolen[r.stolen.len() - 1] == r.stolen.last());
            }
        },
        _ => {},
    }
}

/// A step of a reclaimer leaves every reclaimer with hold of the objects that it works on.
proof fn lemma_step_reclaimer(w: World, t: int, now: u64, u: int)
    requires
        w.inv(),
        0 <= t < w.reclaimers.len(),
        0 <= u < w.reclaimers.len(),
    ensures
        w.after(Event::Step { reclaimer: t, now }).reclaimer_ok(u),
{
    let w2 = w.after(Event::Step { reclaimer: t, now });
    let r = w.reclaimers[t];
    let r2 = w2.reclaimers[u];
    lemma_fates(w, t, now);
    assert(w.reclaimer_ok(t));
    assert(w.reclaimer_ok(u));
    if r.phase is Lookup && r.stolen.len() > 0 {
        assert(r.stolen[r.stolen.len() - 1] == r.stolen.last());
    }
    if u != t {
        assert(forall|p: usize|
            w.fates[p] == Fate::Held(u) ==> #[trigger] w2.fates[p] == Fate::Held(u));
    } else {
        match r.phase {
            Phase::Steal => {
                if w.domain.retired.len() > 0 {
                    assert(r2.stolen + r2.kept =~= w.domain.retired);
                    assert forall|i: int| 0 <= i < r2.stolen.len() implies w2.fates[(
                    #[trigger] r2.stolen[i]).data_ptr] == Fate::Held(t) by {
                        assert(has_at(w.domain.retired, r2.stolen[i].data_ptr));
                    }
                }
            },
            Phase::Splice => {
                let both = r.stolen + r.kept;
                assert(r2.stolen + r2.kept =~= r.stolen);
                assert forall|i: int| 0 <= i < r.stolen.len() implies !has_at(
                    r.kept,
                    (#[trigger] r.stolen[i]).data_ptr,
                ) by {
                    assert(both[i] == r.stolen[i]);
                    assert(forall|j: int|
                        0 <= j < r.kept.len() ==> both[r.stolen.len() + j] == #[trigger] r.kept[j]);
                }
                assert(forall|i: int|
                    0 <= i < r.stolen.len() ==> both[i] == #[trigger] r.stolen[i]);
                assert(distinct(r.stolen));
            },
            Phase::Lookup => {
                if r.stolen.len() > 0 {
                    let n = r.stolen.len();
                    let both = r.stolen + r.kept;
                    let both2 = r2.stolen + r2.kept;
                    assert(both[n - 1] == r.stolen.last());
                    assert(forall|i: int| 0 <= i < n - 1 ==> both2[i] == both[i]);
                    assert(forall|i: int|
                        n - 1 <= i < n - 1 + r.kept.len() ==> #[trigger] both2[i] == both[i + 1]);
                    assert(distinct(both2));
                    assert forall|i: int| 0 <= i < r2.stolen.len() implies w2.fates[(
                    #[trigger] r2.stolen[i]).data_ptr] == Fate::Held(t) by {
                        assert(r2.stolen[i] == both[i] && r2.stolen[i] == r.stolen[i]);
                    }
                    assert forall|i: int| 0 <= i < r2.kept.len() implies w2.fates[(
                    #[trigger] r2.kept[i]).data_ptr] == Fate::Held(t) by {
                        if i < r.kept.len() {
                            assert(r2.kept[i] == both[n + i] && r2.kept[i] == r.kept[i]);
                        }
                    }
                }
            },
            _ => {},
        }
    }
}

/// A step of a reclaimer leaves every object where its fate says.
proof fn lemma_step_placed(w: World, t: int, now: u64, p: usize)
    requires
        w.inv(),
        0 <= t < w.reclaimers.len(),
    ensures
        w.after(Event::Step { reclaimer: t, now }).placed_ok(p),
{
    let w2 = w.after(Event::Step { reclaimer: t, now });
    let r = w.reclaimers[t];
    let r2 = w2.reclaimers[t];
    lemma_fates(w, t, now);
    assert(w.reclaimer_ok(t));
    assert(w.placed_ok(p));
    match r.phase {
        Phase::CountRetired(obj) => {
            assert(r2.in_hand() =~= r.in_hand());
        },
        Phase::Push(obj) => {
            let n = w.domain.retired.len() as int;
            assert(w2.domain.retired[n] == obj);
            assert(r.in_hand()[0] == obj);
            if has_at(w.domain.retired, p) {
                let i = choose|i: int|
                    0 <= i < n && (#[trigger] w.domain.retired[i]).data_ptr == p;
                assert(w2.domain.retired[i].data_ptr == p);
            }
        },
        Phase::Splice => {
            let n = w.domain.retired.len() as int;
            if has_at(r.kept, p) {
                let i = choose|i: int|
                    0 <= i < r.kept.len() && (#[trigger] r.kept[i]).data_ptr == p;
                assert(w2.domain.retired[n + i].data_ptr == p);
            }
            if has_at(w.domain.retired, p) {
                let i = choose|i: int|
                    0 <= i < n && (#[trigger] w.domain.retired[i]).data_ptr == p;
                assert(w2.domain.retired[i].data_ptr == p);
            }
        },
        Phase::Lookup => {
            if r.stolen.len() > 0 {
                let obj = r.stolen.last();
                if has_at(r.stolen, p) && obj.data_ptr != p {
                    let i = choose|i: int|
                        0 <= i < r.stolen.len() && (#[trigger] r.stolen[i]).data_ptr == p;
                    assert(r2.stolen[i].data_ptr == p);
                }
                if r.guarded.contains(obj.data_ptr) {
                    assert(r2.kept[r.kept.len() as int] == obj);
                }
                if has_at(r.kept, p) {
                    let i = choose|i: int|
                        0 <= i < r.kept.len() && (#[trigger] r.kept[i]).data_ptr == p;
                    assert(r2.kept[i].data_ptr == p);
                }
            }
        },
        _ => {},
    }
}

/// What a reclaimer has stolen, it has hold of.
proof fn lemma_stolen_is_held(w: World, t: int, ptr: usize)
    requires
        w.inv(),
        0 <= t < w.reclaimers.len(),
        has_at(w.reclaimers[t].stolen, ptr),
    ensures
        w.fates[ptr] == Fate::Held(t),
{
    let stolen = w.reclaimers[t].stolen;
    let i = choose|i: int| 0 <= i < stolen.len() && (#[trigger] stolen[i]).data_ptr == ptr;
    assert(w.reclaimer_ok(t));
    assert(w.fates[stolen[i].data_ptr] == Fate::Held(t));
}

/// A hazard pointer that announces the address of an object that nobody has retired shields the
/// object.
pub proof fn law_shield_begins(w: World, slot: int, ptr: usize)
    requires
        w.inv(),
        w.announces(slot, ptr),
        w.fates[ptr] is Live,
    ensures
        w.shields(slot, ptr),
{
    assert forall|t: int|
        0 <= t < w.reclaimers.len() && has_at(
            (#[trigger] w.reclaimers[t]).stolen,
            ptr,
        ) implies will_see(w.reclaimers[t], slot, ptr) by {
        lemma_stolen_is_held(w, t, ptr);
    }
}

/// Whatever a thread does, a hazard pointer goes on shielding an object for as long as it announces
/// its address.
pub proof fn law_shield_holds(w: World, e: Event, slot: int, ptr: usize)
    requires
        w.inv(),
        w.allows(e),
        w.shields(slot, ptr),
        w.after(e).announces(slot, ptr),
    ensures
        w.after(e).shields(slot, ptr),
{
    let w2 = w.after(e);
    assert(forall|p: usize| w.fates.dom().contains(p));
    match e {
        Event::Step { reclaimer: t, now } => {
            lemma_step_shield(w, t, now, slot, ptr);
        },
        _ => {
            assert(!(w2.fates[ptr] is Free));
            assert forall|t: int|
                0 <= t < w2.reclaimers.len() && has_at(
                    (#[trigger] w2.reclaimers[t]).stolen,
                    ptr,
                ) implies will_see(w2.reclaimers[t], slot, ptr) by {
                if t < w.reclaimers.len() {
                    assert(w2.reclaimers[t] == w.reclaimers[t]);
                }
            }
        },
    }
}

proof fn lemma_step_shield(w: World, t: int, now: u64, slot: int, ptr: usize)
    requires
        w.inv(),
        0 <= t < w.reclaimers.len(),
        w.shields(slot, ptr),
    ensures
        w.after(Event::Step { reclaimer: t, now }).shields(slot, ptr),
{
    let w2 = w.after(Event::Step { reclaimer: t, now });
    let r = w.reclaimers[t];
    let r2 = w2.reclaimers[t];
    lemma_fates(w, t, now);
    assert(w.reclaimer_ok(t));
    if r.phase is Lookup && r.stolen.len() > 0 {
        assert(r.stolen[r.stolen.len() - 1] == r.stolen.last());
        if has_at(r2.stolen, ptr) {
            let i = choose|i: int|
                0 <= i < r2.stolen.len() && (#[trigger] r2.stolen[i]).data_ptr == ptr;
            assert(r.stolen[i].data_ptr == ptr);
        }
    }
    assert forall|u: int|
        0 <= u < w2.reclaimers.len() && has_at(
            (#[trigger] w2.reclaimers[u]).stolen,
            ptr,
        ) implies will_see(w2.reclaimers[u], slot, ptr) by {
        if u != t {
            assert(w2.reclaimers[u] == w.reclaimers[u]);
        }
    }
}

/// A step of a reclaimer keeps the invariant.
proof fn lemma_step(w: World, t: int, now: u64)
    requires
        w.inv(),
        0 <= t < w.reclaimers.len(),
    ensures
        w.after(Event::Step { reclaimer: t, now }).inv(),
{
    let w2 = w.after(Event::Step { reclaimer: t, now });
    lemma_fates(w, t, now);
    assert(w2.readers_ok());
    assert(w2.links_ok());
    lemma_step_retired(w, t, now);
    assert forall|u: int| 0 <= u < w2.reclaimers.len() implies #[trigger] w2.reclaimer_ok(u) by {
        lemma_step_reclaimer(w, t, now, u);
    }
    assert forall|p: usize| #[trigger] w2.placed_ok(p) by {
        lemma_step_placed(w, t, now, p);
    }
    assert forall|slot: int| 0 <= slot < w2.readers.len() implies #[trigger] w2.protected_ok(
        slot,
    ) by {
        assert(w.protected_ok(slot));
        if w.readers[slot] is Protecting {
            lemma_step_shield(w, t, now, slot, w.readers[slot]->Protecting_ptr);
        }
    }
}

impl World {
    /// All the events can happen, one after the other.
    pub open spec fn allows_all(self, trace: Seq<Event>) -> bool
        decreases trace.len(),
    {
        trace.len() > 0 ==> self.allows_all(trace.drop_last()) && self.after_all(
            trace.drop_last(),
        ).allows(trace.last())
    }

    /// The world after all the events.
    pub open spec fn after_all(self, trace: Seq<Event>) -> World
        decreases trace.len(),
    {
        if trace.len() == 0 {
            self
        } else {
            self.after_all(trace.drop_last()).after(trace.last())
        }
    }
}

/// Whatever a thread does by the rules keeps the invariant.
pub proof fn law_event_keeps_inv(w: World, e: Event)
    requires
        w.inv(),
        w.allows(e),
    ensures
        w.after(e).inv(),
{
    if e is Step {
        lemma_step(w, e->Step_reclaimer, e->now);
    } else {
        lemma_other(w, e);
    }
}

/// An event other than a step of a reclaimer keeps the invariant.
proof fn lemma_other(w: World, e: Event)
    requires
        w.inv(),
        w.allows(e),
        !(e is Step),
    ensures
        w.after(e).inv(),
{
    let w2 = w.after(e);
    assert(forall|p: usize| w.fates.dom().contains(p));
    assert forall|p: usize| #[trigger] w2.fates.dom().contains(p) by {
        assert(w.fates.dom().contains(p));
    }
    assert(w2.readers_ok());
    assert(w2.links_ok());
    assert(w2.retired_ok());
    assert forall|t: int| 0 <= t < w2.reclaimers.len() implies #[trigger] w2.reclaimer_ok(t) by {
        if t < w.reclaimers.len() {
            assert(w.reclaimer_ok(t));
            assert(w2.reclaimers[t] == w.reclaimers[t]);
        }
    }
    assert forall|p: usize| #[trigger] w2.placed_ok(p) by {
        assert(w.placed_ok(p));
        if e is Retire {
            let r = w2.reclaimers[w.reclaimers.len() as int];
            assert(r.in_hand()[0] == e->obj);
        }
    }
    assert forall|slot: int| 0 <= slot < w2.readers.len() implies #[trigger] w2.protected_ok(
        slot,
    ) by {
        if w2.readers[slot] is Protecting {
            let ptr = w2.readers[slot]->Protecting_ptr;
            if e is Validate && e->Validate_slot == slot {
                assert(w.links.dom().contains(w.readers[slot]->link));
                law_shield_begins(w, slot, ptr);
            } else {
                assert(w.protected_ok(slot));
            }
            law_shield_holds(w, e, slot, ptr);
        }
    }
}

/// The invariant holds of every world that events lead to from one in which nobody has done
/// anything.
pub proof fn law_inv_always(w: World, trace: Seq<Event>)
    requires
        w.is_initial(),
        w.allows_all(trace),
    ensures
        w.after_all(trace).inv(),
    decreases trace.len(),
{
    if trace.len() == 0 {
        assert(w.readers_ok() && w.links_ok() && w.retired_ok());
        assert forall|p: usize| #[trigger] w.placed_ok(p) by {
            assert(w.fates.dom().contains(p));
        }
    } else {
        law_inv_always(w, trace.drop_last());
        law_event_keeps_inv(w.after_all(trace.drop_last()), trace.last());
    }
}

/// However the threads come: an object that a reader is protecting was not handed out for
/// deletion, and the next step of no reclaimer hands it out.
pub proof fn law_protected_is_never_handed_out(
    w: World,
    trace: Seq<Event>,
    slot: int,
    ptr: usize,
    t: int,
    now: u64,
)
    requires
        w.is_initial(),
        w.allows_all(trace),
        0 <= slot < w.after_all(trace).readers.len(),
        w.after_all(trace).readers[slot] == (Reader::Protecting { ptr }),
        0 <= t < w.after_all(trace).reclaimers.len(),
    ensures
        !(w.after_all(trace).fates[ptr] is Free),
        ({
            let end = w.after_all(trace);
            end.reclaimers[t].step(end.domain, now).due matches Some(obj) ==> obj.data_ptr != ptr
        }),
{
    law_inv_always(w, trace);
    assert(w.after_all(trace).protected_ok(slot));
    lemma_shielded_is_not_due(w.after_all(trace), slot, ptr, t, now);
}

proof fn lemma_shielded_is_not_due(w: World, slot: int, ptr: usize, t: int, now: u64)
    requires
        w.inv(),
        w.shields(slot, ptr),
        0 <= t < w.reclaimers.len(),
    ensures
        w.reclaimers[t].step(w.domain, now).due matches Some(obj) ==> obj.data_ptr != ptr,
{
    lemma_fates(w, t, now);
    lemma_step_shield(w, t, now, slot, ptr);
}

/// However the threads come: an object whose address an active hazard pointer has announced since
/// before the object was retired is not handed out by any step, for as long as it stays announced,
/// and it is not lost either.
pub proof fn law_announced_before_retired_is_kept(
    w: World,
    before: Seq<Event>,
    since: Seq<Event>,
    slot: int,
    ptr: usize,
)
    requires
        w.is_initial(),
        w.allows_all(before + since),
        w.after_all(before).fates[ptr] is Live,
        forall|n: int|
            0 <= n <= since.len() ==> w.after_all(before + #[trigger] since.take(n)).announces(
                slot,
                ptr,
            ),
    ensures
        ({
            let end = w.after_all(before + since);
            &&& end.shields(slot, ptr)
            &&& forall|t: int, now: u64|
                0 <= t < end.reclaimers.len() ==> (#[trigger] end.reclaimers[t].step(
                    end.domain,
                    now,
                ).due matches Some(obj) ==> obj.data_ptr != ptr)
            &&& end.fates[ptr] is Live || end.has_retired(ptr)
        }),
    decreases since.len(),
{
    let end = w.after_all(before + since);
    assert(since.take(since.len() as int) =~= since);
    law_inv_always(w, before + since);
    if since.len() == 0 {
        assert(before + since =~= before);
        law_shield_begins(end, slot, ptr);
    } else {
        let rest = since.drop_last();
        assert((before + since).drop_last() =~= before + rest);
        assert forall|n: int| 0 <= n <= rest.len() implies w.after_all(
            before + #[trigger] rest.take(n),
        ).announces(slot, ptr) by {
            assert(rest.take(n) =~= since.take(n));
        }
        law_announced_before_retired_is_kept(w, before, rest, slot, ptr);
        law_inv_always(w, before + rest);
        law_shield_holds(w.after_all(before + rest), since.last(), slot, ptr);
    }
    assert forall|t: int, now: u64| 0 <= t < end.reclaimers.len() implies (
    #[trigger] end.reclaimers[t].step(end.domain, now).due matches Some(obj) ==> obj.data_ptr
        != ptr) by {
        lemma_shielded_is_not_due(end, slot, ptr, t, now);
    }
    assert(end.placed_ok(ptr));
}

/// However the threads come: a retired object that was not handed out is among the retired objects
/// of the domain, or some reclaimer has hold of it.
pub proof fn law_retired_is_not_lost(w: World, trace: Seq<Event>, ptr: usize)
    requires
        w.is_initial(),
        w.allows_all(trace),
        !(w.after_all(trace).fates[ptr] is Live),
        !(w.after_all(trace).fates[ptr] is Free),
    ensures
        w.after_all(trace).has_retired(ptr),
{
    law_inv_always(w, trace);
    assert(w.after_all(trace).placed_ok(ptr));
}

/// However the threads came: once no active hazard pointer announces the address of a retired
/// object that was not handed out, and no other reclaimer is at work, a pass hands the object out
/// exactly once, be it made in one piece or step by step, and then the object is retired no more.
pub proof fn law_let_go_is_handed_out_once(
    w: World,
    trace: Seq<Event>,
    ptr: usize,
    transitive: bool,
    now: u64,
)
    requires
        w.is_initial(),
        w.allows_all(trace),
        w.after_all(trace).is_quiet(),
        !(w.after_all(trace).fates[ptr] is Live),
        !(w.after_all(trace).fates[ptr] is Free),
        !model::guarded(w.after_all(trace).domain.hazptrs).contains(ptr),
    ensures
        once_at(w.after_all(trace).domain.pass_due(), ptr),
        !has_at(w.after_all(trace).domain.after_bulk_reclaim().retired, ptr),
        ({
            let d = w.after_all(trace).domain;
            let bulk = ReclaimerView::starting(d.id, Phase::Begin, transitive);
            let o = undisturbed::outcome(bulk, d, now);
            once_at(o.due, ptr) && !has_at(o.domain.retired, ptr)
        }),
{
    let end = w.after_all(trace);
    undisturbed::law_undisturbed_bulk(end.domain, transitive, now);
    let addresses = model::guarded(end.domain.hazptrs);
    law_inv_always(w, trace);
    assert(end.placed_ok(ptr));
    if end.fates[ptr] is Held {
        assert(end.reclaimer_ok(end.fates[ptr]->Held_0));
    }
    let retired = end.domain.retired;
    let i = choose|i: int| 0 <= i < retired.len() && (#[trigger] retired[i]).data_ptr == ptr;
    laws::lemma_sorted(retired, addresses, retired[i]);
    lemma_due_distinct(retired, addresses);
    let due = end.domain.pass_due();
    let k = choose|k: int| 0 <= k < due.len() && due[k] == retired[i];
    assert(due[k].data_ptr == ptr);
    let kept = end.domain.pass_kept();
    if has_at(kept, ptr) {
        let j = choose|j: int| 0 <= j < kept.len() && (#[trigger] kept[j]).data_ptr == ptr;
        laws::lemma_sorted(retired, addresses, kept[j]);
        assert(kept.contains(kept[j]));
    }
}

/// Of objects at different addresses, those that are due are at different addresses.
proof fn lemma_due_distinct(stack: Seq<Retired>, addresses: Set<usize>)
    requires
        distinct(stack),
    ensures
        distinct(model::due_of(stack, addresses)),
    decreases stack.len(),
{
    model::lemma_sort_top(stack, addresses);
    if stack.len() > 0 {
        let rest = stack.drop_last();
        let due = model::due_of(rest, addresses);
        lemma_due_distinct(rest, addresses);
        assert forall|i: int| 0 <= i < due.len() implies (#[trigger] due[i]).data_ptr
            != stack.last().data_ptr by {
            laws::lemma_sorted(rest, addresses, due[i]);
            assert(due.contains(due[i]));
            let k = choose|k: int| 0 <= k < rest.len() && rest[k] == due[i];
            assert(stack[k] == due[i]);
        }
    }
}

/// However the threads come: an object that is handed out for deletion was retired, and then it is
/// neither among the retired objects of the domain nor in the hands of any reclaimer, so that
/// nobody hands it out again.
pub proof fn law_handed_out_once(w: World, trace: Seq<Event>, t: int, now: u64, obj: Retired)
    requires
        w.is_initial(),
        w.allows_all(trace),
        0 <= t < w.after_all(trace).reclaimers.len(),
        ({
            let end = w.after_all(trace);
            end.reclaimers[t].step(end.domain, now).due == Some(obj)
        }),
    ensures
        w.after_all(trace).fates[obj.data_ptr] == Fate::Held(t),
        ({
            let end = w.after_all(trace).after(Event::Step { reclaimer: t, now });
            &&& end.fates[obj.data_ptr] is Free
            &&& !end.has_retired(obj.data_ptr)
        }),
{
    let before = w.after_all(trace);
    let end = before.after(Event::Step { reclaimer: t, now });
    law_inv_always(w, trace);
    law_event_keeps_inv(before, Event::Step { reclaimer: t, now });
    lemma_fates(before, t, now);
    assert(before.reclaimer_ok(t));
    let stolen = before.reclaimers[t].stolen;
    assert(stolen[stolen.len() - 1] == obj);
    assert forall|u: int| 0 <= u < end.reclaimers.len() implies !has_hold(
        #[trigger] end.reclaimers[u],
        obj.data_ptr,
    ) by {
        assert(end.reclaimer_ok(u));
    }
}

/// However the threads come: a hazard pointer that can be taken belongs to nobody.
pub proof fn law_one_owner(w: World, trace: Seq<Event>, slot: int)
    requires
        w.is_initial(),
        w.allows_all(trace),
        w.after_all(trace).allows(Event::Acquire { slot }),
    ensures
        w.after_all(trace).readers[slot] is Nobody,
{
    law_inv_always(w, trace);
    assert(w.after_all(trace).readers_ok());
}

/// The second read decides: an announcement protects what is at its address if the link still
/// holds that address, and nothing if the link was changed in between.
pub proof fn law_second_read_decides(w: World, slot: int, link: int, ptr: usize)
    requires
        0 <= slot < w.readers.len(),
        w.readers[slot] == (Reader::Announced { link, ptr }),
    ensures
        w.after(Event::Validate { slot }).readers[slot] is Protecting <==> w.links[link] == ptr
            && ptr != 0,
        w.links[link] == ptr && ptr != 0 ==> w.after(Event::Validate { slot }).readers[slot] == (
        Reader::Protecting { ptr }),
{
}

/// The events of a reader are what the methods of a holder do to the domain.
pub proof fn law_holder_calls_are_events(w: World, h: HolderView, link: int, ptr: usize)
    requires
        h.is_for(w.domain),
    ensures
        w.after(Event::Announce { slot: h.slot, link, ptr }).domain == h.announcing(w.domain, ptr),
        w.after(Event::Validate { slot: h.slot }).domain == w.domain,
        w.after(Event::Reset { slot: h.slot }).domain == h.announcing(w.domain, 0),
        w.after(Event::Reset { slot: h.slot }).after(Event::Release { slot: h.slot }).domain
            == w.domain.with_hazptr(h.slot, HazPtr { ptr: 0, active: false }),
        w.after(Event::Acquire { slot: h.slot }).domain == w.domain.with_hazptr(
            h.slot,
            HazPtr { ptr: w.domain.hazptrs[h.slot].ptr, active: true },
        ),
        w.after(Event::AcquireNew).after(Event::CountHazPtr).domain == w.domain.with_new_hazptr(),
{
    assert(w.after(Event::Reset { slot: h.slot }).after(
        Event::Release { slot: h.slot },
    ).domain.hazptrs =~= w.domain.with_hazptr(
        h.slot,
        HazPtr { ptr: 0, active: false },
    ).hazptrs);
}

/// A step of an acquirer is an event, or changes nothing about the domain.
pub proof fn law_acquirer_steps_are_events(w: World, a: AcquirerView)
    requires
        a.wf(w.domain),
    ensures
        match a.search {
            Search::TryAcquire(n) => if n > 0 && !w.domain.hazptrs[n - 1].active {
                let e = Event::Acquire { slot: n - 1 };
                w.allows(e) && a.step(w.domain).domain == w.after(e).domain
            } else {
                a.step(w.domain).domain == w.domain
            },
            Search::Push => a.step(w.domain).domain == w.after(Event::AcquireNew).domain,
            Search::Count(_) => a.step(w.domain).domain == w.after(Event::CountHazPtr).domain,
            _ => a.step(w.domain).domain == w.domain,
        },
{
}

} // verus!
