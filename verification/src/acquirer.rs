//! Taking a hazard pointer one access at a time, while others use the domain too.
//!
//! As with a [`Reclaimer`](crate::reclaimer::Reclaimer), others may do what they like to the
//! domain between two steps of an [`Acquirer`].
use crate::domain::HazPtrDomain;
use crate::model;
use crate::model::{DomainId, DomainView};
use crate::ptr::HazPtr;
use vstd::prelude::*;

verus! {

/// What an acquirer does next.
#[derive(Clone, Copy)]
pub enum Search {
    /// See which hazard pointer is the newest.
    LoadHead,
    /// Take the next older hazard pointer if nobody owns it. So many are older.
    TryAcquire(usize),
    /// Make a hazard pointer.
    Push,
    /// Count the new hazard pointer, which is in this place.
    Count(usize),
    /// Nothing: the hazard pointer in this place was taken.
    Acquired(usize),
}

/// An acquirer as a value.
#[verifier::ext_equal]
pub struct AcquirerView {
    /// The domain that it works on.
    pub id: DomainId,
    pub search: Search,
}

/// Where an acquirer, and the domain, are after some steps.
#[verifier::ext_equal]
pub struct AcquirerStep {
    pub acquirer: AcquirerView,
    pub domain: DomainView,
}

impl AcquirerView {
    /// An acquirer of the domain `id` that has done nothing yet.
    pub open spec fn starting(id: DomainId) -> Self {
        AcquirerView { id, search: Search::LoadHead }
    }

    /// The acquirer works on the domain, and the hazard pointer that it tries next, or has taken,
    /// is one of it.
    pub open spec fn wf(self, d: DomainView) -> bool {
        &&& self.id == d.id
        &&& self.search matches Search::TryAcquire(n) ==> n <= d.hazptrs.len()
        &&& self.search matches Search::Count(slot) ==> slot < d.hazptrs.len()
        &&& self.search matches Search::Acquired(slot) ==> slot < d.hazptrs.len()
    }

    /// The next step of the acquirer on a domain.
    pub open spec fn step(self, d: DomainView) -> AcquirerStep {
        let go = |search: Search, domain: DomainView|
            AcquirerStep { acquirer: AcquirerView { search, ..self }, domain };
        match self.search {
            Search::LoadHead => go(Search::TryAcquire(d.hazptrs.len() as usize), d),
            Search::TryAcquire(n) => if n == 0 {
                go(Search::Push, d)
            } else if d.hazptrs[n - 1].active {
                go(Search::TryAcquire((n - 1) as usize), d)
            } else {
                go(
                    Search::Acquired((n - 1) as usize),
                    d.with_hazptr(n - 1, HazPtr { ptr: d.hazptrs[n - 1].ptr, active: true }),
                )
            },
            Search::Push => go(Search::Count(d.hazptrs.len() as usize), d.with_pushed_hazptr()),
            Search::Count(slot) => go(Search::Acquired(slot), d.with_hazptr_counted()),
            Search::Acquired(slot) => go(self.search, d),
        }
    }

    /// Where the acquirer, and the domain, are after `n` steps that nobody disturbs.
    pub open spec fn after_steps(self, d: DomainView, n: nat) -> AcquirerStep
        decreases n,
    {
        if n == 0 {
            AcquirerStep { acquirer: self, domain: d }
        } else {
            let s = self.step(d);
            s.acquirer.after_steps(s.domain, (n - 1) as nat)
        }
    }
}

/// A search for a hazard pointer in progress.
pub struct Acquirer {
    id: DomainId,
    search: Search,
}

impl View for Acquirer {
    type V = AcquirerView;

    closed spec fn view(&self) -> AcquirerView {
        AcquirerView { id: self.id, search: self.search }
    }
}

impl Acquirer {
    /// Will take a hazard pointer of a domain.
    pub fn new<F>(domain: &HazPtrDomain<F>) -> (a: Self)
        ensures
            a@ == AcquirerView::starting(domain@.id),
            a@.wf(domain@),
    {
        Acquirer { id: domain.id(), search: Search::LoadHead }
    }

    /// Which domain it works on.
    pub fn id(&self) -> (id: DomainId)
        ensures
            id == self@.id,
    {
        self.id
    }

    /// The place of the hazard pointer that was taken, once one was.
    pub fn acquired(&self) -> (slot: Option<usize>)
        ensures
            slot == match self@.search {
                Search::Acquired(slot) => Some(slot),
                _ => None,
            },
    {
        match self.search {
            Search::Acquired(slot) => Some(slot),
            _ => None,
        }
    }

    /// Whether the next step can be made on the domain.
    pub fn fits<F>(&self, domain: &HazPtrDomain<F>) -> (b: bool)
        ensures
            b == self@.wf(domain@),
    {
        let n: usize = domain.hazptrs_len();
        self.id == domain.id() && match self.search {
            Search::TryAcquire(i) => i <= n,
            Search::Count(slot) => slot < n,
            Search::Acquired(slot) => slot < n,
            _ => true,
        }
    }

    /// Makes the next step.
    pub fn step<F>(&mut self, domain: &mut HazPtrDomain<F>)
        requires
            old(self)@.wf(old(domain)@),
        ensures
            (AcquirerStep { acquirer: final(self)@, domain: final(domain)@ }) == old(self)@.step(
                old(domain)@,
            ),
            final(self)@.wf(final(domain)@),
    {
        match self.search {
            Search::LoadHead => {
                self.search = Search::TryAcquire(domain.hazptrs_len());
            },
            Search::TryAcquire(n) => {
                if n == 0 {
                    self.search = Search::Push;
                } else {
                    let mut node: HazPtr = domain.hazptr(n - 1);
                    if node.try_acquire() {
                        domain.set_hazptr(n - 1, node);
                        self.search = Search::Acquired(n - 1);
                    } else {
                        self.search = Search::TryAcquire(n - 1);
                    }
                }
            },
            Search::Push => {
                let slot: usize = domain.push_hazptr();
                self.search = Search::Count(slot);
            },
            Search::Count(slot) => {
                domain.count_hazptr();
                self.search = Search::Acquired(slot);
            },
            Search::Acquired(_) => {},
        }
    }
}

/// An acquirer that nobody disturbs takes the newest of the hazard pointers that it has still to
/// try, or makes one.
proof fn lemma_undisturbed_from(a: AcquirerView, d: DomainView) -> (n: nat)
    requires
        a.search is TryAcquire,
        a.wf(d),
        d.hazptrs.len() < usize::MAX,
        forall|j: int|
            a.search->TryAcquire_0 <= j < d.hazptrs.len() ==> (#[trigger] d.hazptrs[j]).active,
    ensures
        ({
            let s = a.after_steps(d, n);
            &&& s.acquirer.id == a.id
            &&& s.acquirer.search matches Search::Acquired(slot) && {
                &&& !model::all_taken(d.hazptrs) ==> {
                    &&& model::is_newest_free(d.hazptrs, slot as int)
                    &&& s.domain == d.with_hazptr(
                        slot as int,
                        HazPtr { ptr: d.hazptrs[slot as int].ptr, active: true },
                    )
                }
                &&& model::all_taken(d.hazptrs) ==> {
                    &&& slot == d.hazptrs.len()
                    &&& s.domain == d.with_new_hazptr()
                }
            }
        }),
    decreases a.search->TryAcquire_0,
{
    let i = a.search->TryAcquire_0;
    let s = a.step(d);
    if i == 0 {
        reveal_with_fuel(AcquirerView::after_steps, 4);
        assert(model::all_taken(d.hazptrs));
        3
    } else if d.hazptrs[i - 1].active {
        let n = lemma_undisturbed_from(s.acquirer, d);
        n + 1
    } else {
        reveal_with_fuel(AcquirerView::after_steps, 2);
        1
    }
}

/// Taking a hazard pointer step by step comes to what [`HazPtrDomain::acquire`] does, if nobody
/// disturbs it. The result is how many steps that takes.
pub proof fn law_undisturbed_acquire(d: DomainView) -> (n: nat)
    requires
        d.hazptrs.len() < usize::MAX,
    ensures
        ({
            let s = AcquirerView::starting(d.id).after_steps(d, n);
            s.acquirer.search matches Search::Acquired(slot) && {
                &&& !model::all_taken(d.hazptrs) ==> {
                    &&& model::is_newest_free(d.hazptrs, slot as int)
                    &&& s.domain == d.with_hazptr(
                        slot as int,
                        HazPtr { ptr: d.hazptrs[slot as int].ptr, active: true },
                    )
                }
                &&& model::all_taken(d.hazptrs) ==> {
                    &&& slot == d.hazptrs.len()
                    &&& s.domain == d.with_new_hazptr()
                }
            }
        }),
{
    let s = AcquirerView::starting(d.id).step(d);
    let n = lemma_undisturbed_from(s.acquirer, d);
    n + 1
}

} // verus!
