//! The hazard pointer itself: one cell in which a reader announces the address that it is using.
use vstd::prelude::*;

verus! {

/// A hazard pointer.
///
/// A reader that owns the hazard pointer writes the address of the object that it reads into
/// `ptr`, where every writer can see it. An address is a plain number here, and zero is the null
/// address, which announces nothing.
#[derive(Clone, Copy, Debug, PartialEq, Eq, Structural)]
pub struct HazPtr {
    /// The announced address, or zero.
    pub ptr: usize,
    /// Whether some reader owns the hazard pointer.
    pub active: bool,
}

impl HazPtr {
    /// A hazard pointer that announces nothing and belongs to whoever made it.
    pub fn new() -> (h: Self)
        ensures
            h == (HazPtr { ptr: 0, active: true }),
    {
        HazPtr { ptr: 0, active: true }
    }

    /// Stops announcing.
    pub fn reset(&mut self)
        ensures
            *final(self) == (HazPtr { ptr: 0, active: old(self).active }),
    {
        self.ptr = 0;
    }

    /// Announces `ptr`.
    pub fn protect(&mut self, ptr: usize)
        ensures
            *final(self) == (HazPtr { ptr, active: old(self).active }),
    {
        self.ptr = ptr;
    }

    /// Gives the hazard pointer up, so that another reader may take it. What it announces is left
    /// as it is.
    pub fn release(&mut self)
        ensures
            *final(self) == (HazPtr { ptr: old(self).ptr, active: false }),
    {
        self.active = false;
    }

    /// Takes the hazard pointer if nobody owns it, and says whether it did.
    pub fn try_acquire(&mut self) -> (taken: bool)
        ensures
            taken == !old(self).active,
            *final(self) == (HazPtr { ptr: old(self).ptr, active: true }),
    {
        let active = self.active;
        if !active {
            self.active = true;
        }
        !active
    }
}

} // verus!
