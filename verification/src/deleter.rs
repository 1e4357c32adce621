//! What becomes of an object once no hazard pointer guards it any more.
use vstd::prelude::*;

verus! {

/// Anything that can be reclaimed, which is everything.
pub trait Reclaim {

}

impl<T> Reclaim for T {

}

/// A way to dispose of a retired object.
///
/// A deleter runs code of the object's type, and that code may come back to the very domain that
/// the object was retired in. It is therefore not the domain that runs a deleter, but whoever gets
/// the objects that are due: a [`Disposer`](crate::disposer::Disposer), or the caller of a
/// [`Reclaimer`](crate::reclaimer::Reclaimer) between two of its steps.
pub trait Deleter: Sync {
    /// Disposes of the object at `ptr`.
    fn delete(&self, ptr: usize);
}

/// An object that was taken out of its data structure and waits until no reader uses it.
#[derive(Clone, Copy)]
pub struct Retired {
    /// Where the object is: the address that hazard pointers are compared with.
    pub data_ptr: usize,
    /// How the object is disposed of.
    pub deleter: &'static dyn Deleter,
}

} // verus!
