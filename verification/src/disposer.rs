//! Where objects go that are due for deletion, and what that does to their domain.
use crate::deleter::Retired;
use crate::domain::HazPtrDomain;
use crate::model::DomainView;
use vstd::prelude::*;

verus! {

/// Deletes the objects that are due, one after the other, while a domain is worked on.
///
/// A deleter runs code of the object's type, and that code may come back to the very domain that
/// the object was retired in: it may retire further objects there. A disposer therefore gets the
/// domain together with the object.
///
/// A `Vec` of objects is the simplest disposer. It puts the deletion off: it takes the objects in
/// and leaves the domain alone.
pub trait Disposer<F>: Sized {
    /// What a disposer remembers.
    type State;

    /// What the disposer remembers.
    spec fn state(&self) -> Self::State;

    /// What a disposer remembers once it has disposed of an object of a domain.
    spec fn remembers(s: Self::State, d: DomainView, obj: Retired) -> Self::State;

    /// What a disposer leaves of a domain once it has disposed of an object of it.
    spec fn leaves(s: Self::State, d: DomainView, obj: Retired) -> DomainView;

    /// How many objects the disposer may dispose of yet with further ones being retired by that.
    spec fn patience(s: Self::State) -> usize;

    /// Objects are retired by disposing of others, but not for ever.
    proof fn lemma_patience(s: Self::State, d: DomainView, obj: Retired)
        ensures
            Self::patience(Self::remembers(s, d, obj)) <= Self::patience(s),
            Self::leaves(s, d, obj).retired.len() > d.retired.len() ==> Self::patience(
                Self::remembers(s, d, obj),
            ) < Self::patience(s),
    ;

    /// Disposes of an object of a domain.
    fn dispose(&mut self, domain: &mut HazPtrDomain<F>, obj: Retired)
        ensures
            final(self).state() == Self::remembers(old(self).state(), old(domain)@, obj),
            final(domain)@ == Self::leaves(old(self).state(), old(domain)@, obj),
    ;
}

impl<F> Disposer<F> for Vec<Retired> {
    type State = Seq<Retired>;

    open spec fn state(&self) -> Seq<Retired> {
        self@
    }

    open spec fn remembers(s: Seq<Retired>, d: DomainView, obj: Retired) -> Seq<Retired> {
        s.push(obj)
    }

    open spec fn leaves(s: Seq<Retired>, d: DomainView, obj: Retired) -> DomainView {
        d
    }

    open spec fn patience(s: Seq<Retired>) -> usize {
        0
    }

    proof fn lemma_patience(s: Seq<Retired>, d: DomainView, obj: Retired) {
    }

    fn dispose(&mut self, domain: &mut HazPtrDomain<F>, obj: Retired) {
        self.push(obj);
    }
}

} // verus!
