//! Retiring and reclaiming one access at a time, while others use the domain too.
//!
//! Retiring an object, or reclaiming those that are due, takes many accesses to the domain, and
//! between any two of them other threads may do what they like to it. A [`Reclaimer`] is such a
//! work in progress: each [`Reclaimer::step`] makes at most one access. What the deleter of an
//! object does, which may be to retire further objects, happens between two steps as well.
use crate::deleter::Retired;
use crate::domain::HazPtrDomain;
use crate::model;
use crate::model::{DomainId, DomainView, SYNC_TIME_PERIOD};
use crate::ptr::HazPtr;
use std::collections::HashSet;
use vstd::prelude::*;

verus! {

broadcast use vstd::std_specs::hash::group_hash_axioms;

/// What a reclaimer does next.
#[derive(Clone, Copy)]
pub enum Phase {
    /// Count an object, before anyone gets a chance to reclaim it.
    CountRetired(Retired),
    /// Put the object, which is counted, onto the retired ones.
    Push(Retired),
    /// Read when the next timed cleanup may start.
    LoadSyncTime,
    /// Replace the time that was read by a later one, unless somebody else has done so.
    ClaimSyncTime { seen: u64, until: u64 },
    /// Read the counter of retired objects.
    LoadRetiredCount,
    /// Read the counter of hazard pointers, and see whether the numbers ask for a cleanup.
    LoadHazPtrCount { rc: isize },
    /// Read the counter of hazard pointers again.
    ReloadHazPtrCount,
    /// Read the counter of retired objects again, and see whether the numbers still ask for a
    /// cleanup.
    ReloadRetiredCount { hc: isize },
    /// Count a pass in.
    Begin,
    /// Take all the retired objects away.
    Steal,
    /// See which hazard pointer is the newest.
    LoadHead,
    /// See whether the next older hazard pointer is active. So many are older.
    LoadActive(usize),
    /// Read the address that this hazard pointer announces.
    LoadPtr(usize),
    /// Look the topmost stolen object up among the addresses.
    Lookup,
    /// See whether objects were retired since the others were stolen.
    LoadDone,
    /// Take the objects that were due off the counter.
    SubtractDue,
    /// Put the objects that are guarded back.
    Splice,
    /// Count the pass out, or begin another one.
    End,
    /// Nothing.
    Finished,
}

/// A reclaimer as a value.
#[verifier::ext_equal]
pub struct ReclaimerView {
    /// The domain that it works on.
    pub id: DomainId,
    pub phase: Phase,
    /// Whether it makes another pass if objects were retired during the last one.
    pub transitive: bool,
    /// The objects that it took away and has not looked up yet: a stack, with its top at the end.
    pub stolen: Seq<Retired>,
    /// The addresses that it has found announced.
    pub guarded: Set<usize>,
    /// The objects that it will put back, in order.
    pub kept: Seq<Retired>,
    /// How many objects it has handed out during this pass.
    pub reclaimed_now: usize,
    /// Whether no object was retired during this pass.
    pub done: bool,
    /// How many objects it has handed out during the passes before.
    pub reclaimed: usize,
}

/// What a step of a reclaimer leads to.
#[verifier::ext_equal]
pub struct Step {
    pub reclaimer: ReclaimerView,
    pub domain: DomainView,
    /// The object that is due for deletion now.
    pub due: Option<Retired>,
}

impl ReclaimerView {
    /// A reclaimer of the domain `id` that begins with `phase`.
    pub open spec fn starting(id: DomainId, phase: Phase, transitive: bool) -> Self {
        ReclaimerView {
            id,
            phase,
            transitive,
            stolen: Seq::empty(),
            guarded: Set::empty(),
            kept: Seq::empty(),
            reclaimed_now: 0,
            done: false,
            reclaimed: 0,
        }
    }

    /// The reclaimer works on the domain, the hazard pointer that it reads next is one of it, and
    /// the objects of a pass can be counted.
    pub open spec fn wf(self, d: DomainView) -> bool {
        &&& self.id == d.id
        &&& self.phase matches Phase::LoadActive(n) ==> n <= d.hazptrs.len()
        &&& self.phase matches Phase::LoadPtr(n) ==> n < d.hazptrs.len()
        &&& self.reclaimed_now + self.kept.len() + self.stolen.len() <= usize::MAX
    }

    /// The time `now` can be handed to the next step: if that would move the time of the next
    /// timed cleanup on from it, the later time is still one.
    pub open spec fn can_tell(self, d: DomainView, now: u64) -> bool {
        self.phase is LoadSyncTime && d.is_timed(now) ==> now + SYNC_TIME_PERIOD <= u64::MAX
    }

    /// The object that the reclaimer is about to put onto the retired ones.
    pub open spec fn in_hand(self) -> Seq<Retired> {
        match self.phase {
            Phase::CountRetired(obj) => seq![obj],
            Phase::Push(obj) => seq![obj],
            _ => Seq::empty(),
        }
    }

    /// The reclaimer has objects in its hands only while it works on them.
    pub open spec fn is_tidy(self) -> bool {
        match self.phase {
            Phase::LoadHead | Phase::LoadActive(_) | Phase::LoadPtr(_) => {
                self.kept.len() == 0 && self.reclaimed_now == 0
            },
            Phase::Lookup => true,
            Phase::LoadDone | Phase::SubtractDue | Phase::Splice => self.stolen.len() == 0,
            _ => self.stolen.len() == 0 && self.kept.len() == 0,
        }
    }

    /// The reclaimer in another phase.
    pub open spec fn at(self, phase: Phase) -> Self {
        ReclaimerView { phase, ..self }
    }

    /// The next step of the reclaimer on a domain, at the time `now`.
    pub open spec fn step(self, d: DomainView, now: u64) -> Step {
        let go = |r: ReclaimerView, d: DomainView| Step { reclaimer: r, domain: d, due: None };
        match self.phase {
            Phase::CountRetired(obj) => go(
                self.at(Phase::Push(obj)),
                DomainView { retired_count: d.retired_count.wrapping_add(1), ..d },
            ),
            Phase::Push(obj) => go(
                self.at(Phase::LoadSyncTime),
                DomainView { retired: d.retired.push(obj), ..d },
            ),
            Phase::LoadSyncTime => if d.is_timed(now) {
                let until = (now + SYNC_TIME_PERIOD) as u64;
                go(self.at(Phase::ClaimSyncTime { seen: d.sync_time, until }), d)
            } else {
                go(self.at(Phase::LoadRetiredCount), d)
            },
            Phase::ClaimSyncTime { seen, until } => if d.sync_time == seen {
                go(
                    ReclaimerView { phase: Phase::Begin, transitive: true, ..self },
                    DomainView { sync_time: until, ..d },
                )
            } else {
                go(self.at(Phase::LoadRetiredCount), d)
            },
            Phase::LoadRetiredCount => go(
                self.at(Phase::LoadHazPtrCount { rc: d.retired_count }),
                d,
            ),
            Phase::LoadHazPtrCount { rc } => if model::threshold(rc, d.hazptr_count) {
                go(self.at(Phase::ReloadHazPtrCount), d)
            } else {
                go(self.at(Phase::Finished), d)
            },
            Phase::ReloadHazPtrCount => go(
                self.at(Phase::ReloadRetiredCount { hc: d.hazptr_count }),
                d,
            ),
            Phase::ReloadRetiredCount { hc } => if model::threshold(d.retired_count, hc) {
                go(ReclaimerView { phase: Phase::Begin, transitive: false, ..self }, d)
            } else {
                go(self.at(Phase::Finished), d)
            },
            Phase::Begin => go(
                self.at(Phase::Steal),
                DomainView { nbulk_reclaims: d.nbulk_reclaims.wrapping_add(1), ..d },
            ),
            Phase::Steal => if d.retired.len() == 0 {
                go(self.at(Phase::Finished), d)
            } else {
                go(
                    ReclaimerView {
                        phase: Phase::LoadHead,
                        stolen: d.retired,
                        guarded: Set::empty(),
                        kept: Seq::empty(),
                        reclaimed_now: 0,
                        ..self
                    },
                    DomainView { retired: Seq::empty(), ..d },
                )
            },
            Phase::LoadHead => go(self.at(Phase::LoadActive(d.hazptrs.len() as usize)), d),
            Phase::LoadActive(n) => if n == 0 {
                go(self.at(Phase::Lookup), d)
            } else if d.hazptrs[n - 1].active {
                go(self.at(Phase::LoadPtr((n - 1) as usize)), d)
            } else {
                go(self.at(Phase::LoadActive((n - 1) as usize)), d)
            },
            Phase::LoadPtr(n) => go(
                ReclaimerView {
                    phase: Phase::LoadActive(n),
                    guarded: self.guarded.insert(d.hazptrs[n as int].ptr),
                    ..self
                },
                d,
            ),
            Phase::Lookup => if self.stolen.len() == 0 {
                go(self.at(Phase::LoadDone), d)
            } else {
                let obj = self.stolen.last();
                let stolen = self.stolen.drop_last();
                if self.guarded.contains(obj.data_ptr) {
                    go(ReclaimerView { stolen, kept: self.kept.push(obj), ..self }, d)
                } else {
                    Step {
                        reclaimer: ReclaimerView {
                            stolen,
                            reclaimed_now: (self.reclaimed_now + 1) as usize,
                            ..self
                        },
                        domain: d,
                        due: Some(obj),
                    }
                }
            },
            Phase::LoadDone => go(
                ReclaimerView { phase: Phase::SubtractDue, done: d.retired.len() == 0, ..self },
                d,
            ),
            Phase::SubtractDue => go(
                self.at(
                    if self.kept.len() == 0 {
                        Phase::End
                    } else {
                        Phase::Splice
                    },
                ),
                DomainView {
                    retired_count: d.retired_count.wrapping_sub(self.reclaimed_now as isize),
                    ..d
                },
            ),
            Phase::Splice => go(
                ReclaimerView { phase: Phase::End, kept: Seq::empty(), ..self },
                DomainView { retired: d.retired + self.kept, ..d },
            ),
            Phase::End => {
                let reclaimed = self.reclaimed.wrapping_add(self.reclaimed_now);
                if self.done || !self.transitive {
                    go(
                        ReclaimerView { phase: Phase::Finished, reclaimed, ..self },
                        DomainView { nbulk_reclaims: d.nbulk_reclaims.wrapping_sub(1), ..d },
                    )
                } else {
                    go(ReclaimerView { phase: Phase::Steal, reclaimed, ..self }, d)
                }
            },
            Phase::Finished => go(self, d),
        }
    }
}

/// A retirement or a reclamation in progress.
pub struct Reclaimer {
    id: DomainId,
    phase: Phase,
    transitive: bool,
    stolen: Vec<Retired>,
    guarded_ptrs: HashSet<usize>,
    kept: Vec<Retired>,
    reclaimed_now: usize,
    done: bool,
    reclaimed: usize,
}

impl View for Reclaimer {
    type V = ReclaimerView;

    closed spec fn view(&self) -> ReclaimerView {
        ReclaimerView {
            id: self.id,
            phase: self.phase,
            transitive: self.transitive,
            stolen: self.stolen@,
            guarded: self.guarded_ptrs@,
            kept: self.kept@,
            reclaimed_now: self.reclaimed_now,
            done: self.done,
            reclaimed: self.reclaimed,
        }
    }
}

impl Reclaimer {
    fn starting(id: DomainId, phase: Phase, transitive: bool) -> (r: Self)
        ensures
            r@ == ReclaimerView::starting(id, phase, transitive),
    {
        Reclaimer {
            id,
            phase,
            transitive,
            stolen: Vec::new(),
            guarded_ptrs: HashSet::new(),
            kept: Vec::new(),
            reclaimed_now: 0,
            done: false,
            reclaimed: 0,
        }
    }

    /// Will put an object onto the retired ones of a domain, and then clean up if it is time to.
    pub fn retire<F>(domain: &HazPtrDomain<F>, obj: Retired) -> (r: Self)
        ensures
            r@ == ReclaimerView::starting(domain@.id, Phase::CountRetired(obj), false),
            r@.wf(domain@),
    {
        Self::starting(domain.id(), Phase::CountRetired(obj), false)
    }

    /// Will clean a domain up if it is time to.
    pub fn cleanup<F>(domain: &HazPtrDomain<F>) -> (r: Self)
        ensures
            r@ == ReclaimerView::starting(domain@.id, Phase::LoadSyncTime, false),
            r@.wf(domain@),
    {
        Self::starting(domain.id(), Phase::LoadSyncTime, false)
    }

    /// Will make a pass over the retired objects of a domain and, if it is transitive, further
    /// ones as long as objects are retired in the meantime.
    pub fn bulk<F>(domain: &HazPtrDomain<F>, transitive: bool) -> (r: Self)
        ensures
            r@ == ReclaimerView::starting(domain@.id, Phase::Begin, transitive),
            r@.wf(domain@),
    {
        Self::starting(domain.id(), Phase::Begin, transitive)
    }

    /// Whether the next step is the one that needs to know the time.
    pub fn reads_clock(&self) -> (b: bool)
        ensures
            b == (self@.phase is LoadSyncTime),
    {
        matches!(self.phase, Phase::LoadSyncTime)
    }

    /// Whether there is nothing left to do.
    pub fn is_finished(&self) -> (b: bool)
        ensures
            b == (self@.phase is Finished),
    {
        matches!(self.phase, Phase::Finished)
    }

    /// How many objects were handed out for deletion by the passes that have ended.
    pub fn reclaimed(&self) -> (n: usize)
        ensures
            n == self@.reclaimed,
    {
        self.reclaimed
    }

    /// Whether the next step can be made on the domain.
    pub fn fits<F>(&self, domain: &HazPtrDomain<F>) -> (b: bool)
        ensures
            b == self@.wf(domain@),
    {
        let n: usize = domain.hazptrs_len();
        let in_range = match self.phase {
            Phase::LoadActive(i) => i <= n,
            Phase::LoadPtr(i) => i < n,
            _ => true,
        };
        let room: usize = usize::MAX - self.reclaimed_now;
        self.id == domain.id() && in_range && self.kept.len() <= room && self.stolen.len() <= room
            - self.kept.len()
    }

    /// Makes the next step, at the time `now` in nanoseconds, which matters only if the step
    /// [`reads_clock`](Reclaimer::reads_clock), and returns the object that is due for deletion by
    /// it, if any. The caller deletes that object before the next step.
    pub fn step<F>(&mut self, domain: &mut HazPtrDomain<F>, now: u64) -> (due: Option<Retired>)
        requires
            old(self)@.wf(old(domain)@),
            old(self)@.can_tell(old(domain)@, now),
        ensures
            (Step { reclaimer: final(self)@, domain: final(domain)@, due }) == old(self)@.step(
                old(domain)@,
                now,
            ),
            final(self)@.wf(final(domain)@),
    {
        match self.phase {
            Phase::CountRetired(obj) => {
                domain.set_retired_count(domain.retired_count().wrapping_add(1));
                self.phase = Phase::Push(obj);
            },
            Phase::Push(obj) => {
                domain.push_retired(obj);
                self.phase = Phase::LoadSyncTime;
            },
            Phase::LoadSyncTime => {
                let seen: u64 = domain.sync_time();
                if now > seen {
                    self.phase = Phase::ClaimSyncTime { seen, until: now + SYNC_TIME_PERIOD };
                } else {
                    self.phase = Phase::LoadRetiredCount;
                }
            },
            Phase::ClaimSyncTime { seen, until } => {
                if domain.sync_time() == seen {
                    domain.set_sync_time(until);
                    self.transitive = true;
                    self.phase = Phase::Begin;
                } else {
                    self.phase = Phase::LoadRetiredCount;
                }
            },
            Phase::LoadRetiredCount => {
                self.phase = Phase::LoadHazPtrCount { rc: domain.retired_count() };
            },
            Phase::LoadHazPtrCount { rc } => {
                if HazPtrDomain::<F>::reached_threshold(rc, domain.hazptr_count()) {
                    self.phase = Phase::ReloadHazPtrCount;
                } else {
                    self.phase = Phase::Finished;
                }
            },
            Phase::ReloadHazPtrCount => {
                self.phase = Phase::ReloadRetiredCount { hc: domain.hazptr_count() };
            },
            Phase::ReloadRetiredCount { hc } => {
                if HazPtrDomain::<F>::reached_threshold(domain.retired_count(), hc) {
                    self.transitive = false;
                    self.phase = Phase::Begin;
                } else {
                    self.phase = Phase::Finished;
                }
            },
            Phase::Begin => {
                domain.set_nbulk_reclaims(domain.nbulk_reclaims().wrapping_add(1));
                self.phase = Phase::Steal;
            },
            Phase::Steal => {
                let stolen = domain.steal_retired();
                if stolen.len() == 0 {
                    self.phase = Phase::Finished;
                } else {
                    self.stolen = stolen;
                    self.guarded_ptrs = HashSet::new();
                    self.kept = Vec::new();
                    self.reclaimed_now = 0;
                    self.phase = Phase::LoadHead;
                }
            },
            Phase::LoadHead => {
                self.phase = Phase::LoadActive(domain.hazptrs_len());
            },
            Phase::LoadActive(n) => {
                if n == 0 {
                    self.phase = Phase::Lookup;
                } else if domain.hazptr(n - 1).active {
                    self.phase = Phase::LoadPtr(n - 1);
                } else {
                    self.phase = Phase::LoadActive(n - 1);
                }
            },
            Phase::LoadPtr(n) => {
                self.guarded_ptrs.insert(domain.hazptr(n).ptr);
                self.phase = Phase::LoadActive(n);
            },
            Phase::Lookup => {
                match self.stolen.pop() {
                    None => {
                        self.phase = Phase::LoadDone;
                    },
                    Some(obj) => {
                        if self.guarded_ptrs.contains(&obj.data_ptr) {
                            self.kept.push(obj);
                        } else {
                            self.reclaimed_now = self.reclaimed_now + 1;
                            return Some(obj);
                        }
                    },
                }
            },
            Phase::LoadDone => {
                self.done = domain.retired_len() == 0;
                self.phase = Phase::SubtractDue;
            },
            Phase::SubtractDue => {
                domain.set_retired_count(
                    domain.retired_count().wrapping_sub(self.reclaimed_now as isize),
                );
                if self.kept.len() == 0 {
                    self.phase = Phase::End;
                } else {
                    self.phase = Phase::Splice;
                }
            },
            Phase::Splice => {
                domain.splice_retired(&mut self.kept);
                self.phase = Phase::End;
            },
            Phase::End => {
                self.reclaimed = self.reclaimed.wrapping_add(self.reclaimed_now);
                if self.done || !self.transitive {
                    domain.set_nbulk_reclaims(domain.nbulk_reclaims().wrapping_sub(1));
                    self.phase = Phase::Finished;
                } else {
                    self.phase = Phase::Steal;
                }
            },
            Phase::Finished => {},
        }
        None
    }
}

} // verus!
