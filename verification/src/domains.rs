//! All the domains of a program: the one that is shared, and what tells the others apart.
use crate::domain::HazPtrDomain;
use crate::family::Global;
use crate::model::{DomainId, DomainView};
use vstd::prelude::*;

verus! {

/// A number that no other domain of the program has.
pub struct Number {
    n: usize,
}

impl View for Number {
    type V = usize;

    closed spec fn view(&self) -> usize {
        self.n
    }
}

impl Number {
    /// The number itself.
    pub(crate) fn get(&self) -> (n: usize)
        ensures
            n == self@,
    {
        self.n
    }
}

/// The domains of a program as a value.
#[verifier::ext_equal]
pub struct DomainsView {
    /// The domain that is shared.
    pub shared: DomainView,
    /// The numbers that were given out.
    pub given: Set<usize>,
}

/// The domains of a program, which has one value of this type: it keeps the domain that is shared,
/// and gives out the numbers of the others.
pub struct Domains {
    shared: HazPtrDomain<Global>,
    next: usize,
}

impl View for Domains {
    type V = DomainsView;

    closed spec fn view(&self) -> DomainsView {
        DomainsView { shared: self.shared@, given: Set::new(|n: usize| n < self.next) }
    }
}

impl Domains {
    /// The domains of a program that has not used any yet.
    pub fn new() -> (all: Self)
        ensures
            all@.shared == DomainView::fresh(DomainId::Shared),
            all@.given == Set::<usize>::empty(),
    {
        let all = Domains { shared: HazPtrDomain::fresh(DomainId::Shared), next: 0 };
        assert(all@.given =~= Set::<usize>::empty());
        all
    }

    /// The domain that is shared: the same one whenever it is asked for.
    pub(crate) fn shared(&mut self) -> (d: &mut HazPtrDomain<Global>)
        ensures
            d@ == old(self)@.shared,
            final(self)@ == (DomainsView { shared: final(d)@, ..old(self)@ }),
    {
        &mut self.shared
    }

    /// A number that was not given out before, unless there is none left.
    pub fn number(&mut self) -> (number: Option<Number>)
        ensures
            match number {
                Some(n) => {
                    &&& !old(self)@.given.contains(n@)
                    &&& final(self)@ == (DomainsView {
                        given: old(self)@.given.insert(n@),
                        ..old(self)@
                    })
                },
                None => {
                    &&& forall|n: usize| n < usize::MAX ==> old(self)@.given.contains(n)
                    &&& final(self)@ == old(self)@
                },
            },
    {
        if self.next == usize::MAX {
            return None;
        }
        let number = Number { n: self.next };
        self.next = self.next + 1;
        assert(self@.given =~= old(self)@.given.insert(number@));
        Some(number)
    }
}

} // verus!
