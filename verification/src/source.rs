//! The place that a reader reads addresses from, and what was read of it when.
use crate::domain::HazPtrDomain;
use crate::model::DomainView;
use std::sync::atomic::{AtomicUsize, Ordering};
use vstd::prelude::*;

verus! {

/// These addresses were read from the source, one after the other, each while the domain was as
/// noted with it.
pub closed spec fn were_read(src: &AtomicUsize, log: Seq<(DomainView, usize)>) -> bool {
    forall|i: int|
        0 <= i < log.len() ==> (call_ensures(
            AtomicUsize::load,
            (src, Ordering::Relaxed),
            (#[trigger] log[i]).1,
        ) || call_ensures(AtomicUsize::load, (src, Ordering::Acquire), log[i].1))
}

/// Whatever is said to have been read is what a load gave.
pub proof fn law_reads_are_loads(src: &AtomicUsize, log: Seq<(DomainView, usize)>, i: int)
    requires
        were_read(src, log),
        0 <= i < log.len(),
    ensures
        call_ensures(AtomicUsize::load, (src, Ordering::Relaxed), log[i].1) || call_ensures(
            AtomicUsize::load,
            (src, Ordering::Acquire),
            log[i].1,
        ),
{
}

/// Reads a source, and remembers what was read of it when.
pub(crate) struct Watch<'a> {
    src: &'a AtomicUsize,
    log: Ghost<Seq<(DomainView, usize)>>,
}

impl<'a> Watch<'a> {
    /// The source.
    pub closed spec fn source(self) -> &'a AtomicUsize {
        self.src
    }

    /// What was read, and of what domain.
    pub closed spec fn log(self) -> Seq<(DomainView, usize)> {
        self.log@
    }

    /// Begins to watch a source, of which nothing was read yet.
    pub(crate) fn new(src: &'a AtomicUsize) -> (w: Self)
        ensures
            w.source() == src,
            w.log() == Seq::<(DomainView, usize)>::empty(),
            were_read(src, w.log()),
    {
        Watch { src, log: Ghost(Seq::empty()) }
    }

    /// Reads the source for a start.
    pub(crate) fn load_first<F>(&mut self, d: &HazPtrDomain<F>) -> (ptr: usize)
        requires
            were_read(old(self).source(), old(self).log()),
        ensures
            final(self).source() == old(self).source(),
            final(self).log() == old(self).log().push((d@, ptr)),
            were_read(final(self).source(), final(self).log()),
            call_ensures(AtomicUsize::load, (old(self).source(), Ordering::Relaxed), ptr),
    {
        let ptr: usize = self.src.load(Ordering::Relaxed);
        self.log = Ghost(self.log@.push((d@, ptr)));
        ptr
    }

    /// Reads the source after an announcement.
    pub(crate) fn load_again<F>(&mut self, d: &HazPtrDomain<F>) -> (ptr: usize)
        requires
            were_read(old(self).source(), old(self).log()),
        ensures
            final(self).source() == old(self).source(),
            final(self).log() == old(self).log().push((d@, ptr)),
            were_read(final(self).source(), final(self).log()),
            call_ensures(AtomicUsize::load, (old(self).source(), Ordering::Acquire), ptr),
    {
        let ptr: usize = self.src.load(Ordering::Acquire);
        self.log = Ghost(self.log@.push((d@, ptr)));
        ptr
    }
}

} // verus!
