//! Objects that hazard pointers guard.
//!
//! Such an object is not simply dropped when it leaves its data structure. It knows the domain
//! that it belongs to, where it has to be retired.
use crate::deleter::Retired;
use crate::disposer::Disposer;
use crate::domain::HazPtrDomain;
use crate::family::Global;
use crate::model::{DomainId, SYNC_TIME_PERIOD};
use crate::sweep;
use std::marker::PhantomData;
use std::ops::{Deref, DerefMut};
use vstd::prelude::*;

verus! {

/// An object that knows the domain that it is to be retired in.
pub trait HazPtrObject<F>: Sized {
    /// The domain that the object belongs to.
    spec fn home(&self) -> DomainId;

    /// The domain that the object belongs to.
    fn domain(&self) -> (id: DomainId)
        ensures
            id == self.home(),
    ;

    /// Retires the object in its domain, with `me` saying where it is and how it is deleted. `due`
    /// disposes of what is due for deletion.
    ///
    /// No reader can get at the object any more; those that already have may go on using it. The
    /// deleter must be one for objects like this.
    fn retire<D: Disposer<F>>(
        &self,
        me: Retired,
        domain: &mut HazPtrDomain<F>,
        now: u64,
        due: &mut D,
    )
        requires
            self.home() == old(domain)@.id,
            old(domain)@.is_timed(now) ==> now + SYNC_TIME_PERIOD <= u64::MAX,
        ensures
            ({
                let o = sweep::cleanup::<F, D>(
                    old(due).state(),
                    old(domain)@.after_push(me),
                    now,
                );
                final(domain)@ == o.domain && final(due).state() == o.state
            }),
    {
        domain.retire(me, now, due);
    }
}

/// A value together with the domain that it is to be retired in.
pub struct HazPtrObjectWrapper<T, F> {
    inner: T,
    domain: DomainId,
    family: PhantomData<F>,
}

impl<T> HazPtrObjectWrapper<T, Global> {
    /// Wraps a value for the domain that all threads share.
    pub fn with_default_domain(t: T) -> (w: Self)
        ensures
            w.inner() == t,
            w.home() == DomainId::Shared,
    {
        HazPtrObjectWrapper { inner: t, domain: DomainId::Shared, family: PhantomData }
    }
}

impl<T, F> HazPtrObjectWrapper<T, F> {
    /// The wrapped value.
    pub closed spec fn inner(&self) -> T {
        self.inner
    }

    /// Wraps a value for a domain.
    pub fn with_domain(d: &HazPtrDomain<F>, t: T) -> (w: Self)
        ensures
            w.inner() == t,
            w.home() == d@.id,
    {
        HazPtrObjectWrapper { inner: t, domain: d.id(), family: PhantomData }
    }
}

impl<T, F> HazPtrObject<F> for HazPtrObjectWrapper<T, F> {
    closed spec fn home(&self) -> DomainId {
        self.domain
    }

    fn domain(&self) -> (id: DomainId) {
        self.domain
    }
}

impl<T, F> Deref for HazPtrObjectWrapper<T, F> {
    type Target = T;

    fn deref(&self) -> (t: &T)
        ensures
            *t == self.inner(),
    {
        &self.inner
    }
}

impl<T, F> DerefMut for HazPtrObjectWrapper<T, F> {
    fn deref_mut(&mut self) -> (t: &mut T)
        ensures
            *t == old(self).inner(),
            final(self).inner() == *final(t),
            final(self).home() == old(self).home(),
    {
        &mut self.inner
    }
}

} // verus!
