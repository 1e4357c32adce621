//! The reader's side: owning a hazard pointer, and protecting what is read with it.
use crate::acquirer::{Acquirer, Search};
use crate::domain::HazPtrDomain;
use crate::model;
use crate::model::{DomainId, DomainView};
use crate::obj::HazPtrObject;
use crate::ptr::HazPtr;
use crate::source;
use crate::source::Watch;
use std::marker::PhantomData;
use std::sync::atomic::{AtomicUsize, Ordering};
use vstd::prelude::*;

verus! {

/// A holder as a value.
pub struct HolderView {
    /// The place of the hazard pointer among those of its domain.
    pub slot: int,
    /// The domain that the hazard pointer is one of.
    pub domain: DomainId,
}

impl HolderView {
    /// The hazard pointer is one of this domain.
    pub open spec fn is_for(self, d: DomainView) -> bool {
        self.domain == d.id && 0 <= self.slot < d.hazptrs.len()
    }

    /// The domain with the hazard pointer announcing `ptr` in it.
    pub open spec fn announcing(self, d: DomainView, ptr: usize) -> DomainView {
        d.with_hazptr(
            self.slot,
            HazPtr { ptr, active: d.hazptrs[self.slot].active },
        )
    }
}

/// The address, unless it is null.
pub open spec fn non_null(ptr: usize) -> Option<usize> {
    if ptr == 0 {
        None
    } else {
        Some(ptr)
    }
}

/// `i` is the first place at which two neighbours are equal.
pub open spec fn is_first_repeat(s: Seq<usize>, i: int) -> bool {
    &&& 0 <= i < s.len() - 1
    &&& s[i] == s[i + 1]
    &&& forall|j: int| #![trigger s[j]] 0 <= j < i ==> s[j] != s[j + 1]
}

/// No two neighbours are equal.
pub open spec fn has_no_repeat(s: Seq<usize>) -> bool {
    forall|j: int| #![trigger s[j]] 0 <= j < s.len() - 1 ==> s[j] != s[j + 1]
}

/// What comes of an attempt to protect what a source points to, if `first` and then `reads` are
/// what was read from it: the result, and the domain from then on.
pub open spec fn reads_lead_to(
    h: HolderView,
    d: DomainView,
    first: usize,
    reads: Seq<usize>,
    r: Result<Option<usize>, usize>,
    after: DomainView,
) -> bool {
    let all = seq![first] + reads;
    &&& r is Ok <==> exists|i: int| is_first_repeat(all, i)
    &&& r is Err <==> has_no_repeat(all)
    &&& forall|i: int| #[trigger]
        is_first_repeat(all, i) ==> r == Ok::<Option<usize>, usize>(non_null(all[i])) && after
            == h.announcing(d, all[i])
    &&& r is Err ==> {
        &&& r == Err::<Option<usize>, usize>(all.last())
        &&& after == if reads.len() == 0 {
            d
        } else {
            h.announcing(d, 0)
        }
    }
}

/// What comes of an attempt to protect what is at `ptr`, if the source was found to hold `held` while
/// `ptr` was announced: the result, and the domain from then on.
pub open spec fn held_leads_to(
    h: HolderView,
    d: DomainView,
    ptr: usize,
    held: usize,
    r: Result<Option<usize>, usize>,
    after: DomainView,
) -> bool {
    if held == ptr {
        r == Ok::<Option<usize>, usize>(non_null(ptr)) && after == h.announcing(d, ptr)
    } else {
        r == Err::<Option<usize>, usize>(held) && after == h.announcing(d, 0)
    }
}

/// What was read differs from what was read just before.
proof fn lemma_read_on(first: usize, reads: Seq<usize>, read: usize)
    requires
        has_no_repeat(seq![first] + reads),
        read != (seq![first] + reads).last(),
    ensures
        has_no_repeat(seq![first] + reads.push(read)),
        (seq![first] + reads.push(read)).last() == read,
{
    let all = seq![first] + reads;
    let all2 = seq![first] + reads.push(read);
    assert(all2 =~= all.push(read));
    assert forall|j: int| #![trigger all2[j]] 0 <= j < all2.len() - 1 implies all2[j] != all2[j
        + 1] by {
        assert(all2[j] == all[j]);
        if j + 1 < all.len() {
            assert(all2[j + 1] == all[j + 1]);
        }
    }
}

/// What was read was read just before too, for the first time, and nothing that may be read later
/// makes a difference.
proof fn lemma_read_twice(
    h: HolderView,
    d: DomainView,
    first: usize,
    reads: Seq<usize>,
    read: usize,
    attempts: usize,
)
    requires
        reads.len() < attempts,
        has_no_repeat(seq![first] + reads),
        read == (seq![first] + reads).last(),
    ensures
        reads_lead_to(
            h,
            d,
            first,
            reads.push(read) + Seq::new((attempts - reads.len() - 1) as nat, |i: int| read),
            Ok::<Option<usize>, usize>(non_null(read)),
            h.announcing(d, read),
        ),
{
    let n = reads.len() as int;
    let rest = Seq::new((attempts - n - 1) as nat, |i: int| read);
    let more = reads.push(read) + rest;
    let all = seq![first] + reads;
    let all2 = seq![first] + more;
    assert(forall|j: int| 0 <= j <= n ==> all2[j] == all[j]);
    assert(all2[n + 1] == read);
    assert(is_first_repeat(all2, n));
}

/// An attempt to protect what a source points to, which has announced what was read last.
pub struct Attempt {
    ptr: usize,
}

impl View for Attempt {
    type V = usize;

    closed spec fn view(&self) -> usize {
        self.ptr
    }
}

/// A reader's hold on a hazard pointer.
///
/// The holder knows which domain its hazard pointer came from, and every method has to be given
/// that domain.
pub struct HazPtrHolder<F> {
    slot: usize,
    domain: DomainId,
    family: PhantomData<F>,
}

impl<F> View for HazPtrHolder<F> {
    type V = HolderView;

    closed spec fn view(&self) -> HolderView {
        HolderView { slot: self.slot as int, domain: self.domain }
    }
}

impl<F> HazPtrHolder<F> {
    /// Takes a hazard pointer of the domain: the newest that nobody owns, or else a new one.
    pub fn for_domain(d: &mut HazPtrDomain<F>) -> (h: Self)
        ensures
            h@.is_for(final(d)@),
            !model::all_taken(old(d)@.hazptrs) ==> {
                &&& model::is_newest_free(old(d)@.hazptrs, h@.slot)
                &&& final(d)@ == old(d)@.with_hazptr(
                    h@.slot,
                    HazPtr { ptr: old(d)@.hazptrs[h@.slot].ptr, active: true },
                )
            },
            model::all_taken(old(d)@.hazptrs) ==> {
                &&& h@.slot == old(d)@.hazptrs.len()
                &&& final(d)@ == old(d)@.with_new_hazptr()
            },
    {
        let slot: usize = d.acquire();
        HazPtrHolder { slot, domain: d.id(), family: PhantomData }
    }

    /// Holds the hazard pointer that an acquirer has taken, once it has taken one.
    pub fn for_acquired(a: Acquirer) -> (h: Option<Self>)
        ensures
            match a@.search {
                Search::Acquired(slot) => h is Some && h->0@.slot == slot && h->0@.domain == a@.id,
                _ => h is None,
            },
    {
        match a.acquired() {
            Some(slot) => Some(HazPtrHolder { slot, domain: a.id(), family: PhantomData }),
            None => None,
        }
    }

    /// The domain that the hazard pointer is one of.
    pub fn domain(&self) -> (id: DomainId)
        ensures
            id == self@.domain,
    {
        self.domain
    }

    /// The place of the hazard pointer among those of its domain.
    pub fn slot(&self) -> (slot: usize)
        ensures
            slot == self@.slot,
    {
        self.slot
    }

    /// Whether the hazard pointer is one of this domain.
    pub fn is_for(&self, d: &HazPtrDomain<F>) -> (b: bool)
        ensures
            b == self@.is_for(d@),
    {
        self.domain == d.id() && self.slot < d.hazptrs_len()
    }

    /// Announces `ptr`. This alone protects nothing: see [`HazPtrHolder::validate`].
    pub fn announce(&mut self, d: &mut HazPtrDomain<F>, ptr: usize)
        requires
            old(self)@.is_for(old(d)@),
        ensures
            final(self)@ == old(self)@,
            final(d)@ == old(self)@.announcing(old(d)@, ptr),
    {
        let mut hazard: HazPtr = d.hazptr(self.slot);
        hazard.protect(ptr);
        d.set_hazptr(self.slot, hazard);
    }

    /// Decides whether an announcement of `ptr` protects what is there, given what its source
    /// was found to hold afterwards. If the source had changed, the announcement is taken back,
    /// and what the source held is returned for the next attempt.
    pub fn validate(&mut self, d: &mut HazPtrDomain<F>, ptr: usize, ptr2: usize) -> (r: Result<
        Option<usize>,
        usize,
    >)
        requires
            old(self)@.is_for(old(d)@),
        ensures
            final(self)@ == old(self)@,
            ptr == ptr2 ==> r == Ok::<Option<usize>, usize>(non_null(ptr)) && final(d)@ == old(d)@,
            ptr != ptr2 ==> r == Err::<Option<usize>, usize>(ptr2) && final(d)@ == old(
                self,
            )@.announcing(old(d)@, 0),
    {
        if ptr != ptr2 {
            self.reset(d);
            return Err(ptr2);
        }
        if ptr == 0 {
            Ok(None)
        } else {
            Ok(Some(ptr))
        }
    }

    /// Begins to protect what a source points to, if anything: announces what it was found to hold.
    pub fn begin(&mut self, d: &mut HazPtrDomain<F>, first: usize) -> (a: Attempt)
        requires
            old(self)@.is_for(old(d)@),
        ensures
            final(self)@ == old(self)@,
            a@ == first,
            final(d)@ == old(self)@.announcing(old(d)@, first),
    {
        self.announce(d, first);
        Attempt { ptr: first }
    }

    /// Goes on with what the source was found to hold after the last announcement. If that is what
    /// was announced, the object there is protected from now on; there is none if it is null.
    /// Otherwise it is what is announced next.
    pub fn go_on(&mut self, d: &mut HazPtrDomain<F>, a: Attempt, read: usize) -> (r: Result<
        Option<usize>,
        Attempt,
    >)
        requires
            old(self)@.is_for(old(d)@),
        ensures
            final(self)@ == old(self)@,
            read == a@ ==> r == Ok::<Option<usize>, Attempt>(non_null(read)) && final(d)@ == old(
                d,
            )@,
            read != a@ ==> {
                &&& r is Err
                &&& r->Err_0@ == read
                &&& final(d)@ == old(self)@.announcing(old(d)@, read)
            },
    {
        match self.validate(d, a.ptr, read) {
            Ok(protected) => Ok(protected),
            Err(ptr2) => {
                let next = self.begin(d, ptr2);
                assert(d@ =~= old(self)@.announcing(old(d)@, read));
                Err(next)
            },
        }
    }

    /// Gives up: nothing is protected, and the result is what was read last.
    pub fn give_up(&mut self, d: &mut HazPtrDomain<F>, a: Attempt) -> (last: usize)
        requires
            old(self)@.is_for(old(d)@),
        ensures
            final(self)@ == old(self)@,
            last == a@,
            final(d)@ == old(self)@.announcing(old(d)@, 0),
    {
        self.reset(d);
        a.ptr
    }

    /// Protects what a source points to, if anything, given what it was found to hold: `first`
    /// before the first announcement, and then one of `reads` after each announcement. Whatever is
    /// read is announced until it is read twice in a row, which protects what is there. If that
    /// does not happen, nothing is protected, and the result is what was read last.
    pub fn protect_reads(
        &mut self,
        d: &mut HazPtrDomain<F>,
        first: usize,
        reads: &Vec<usize>,
    ) -> (r: Result<Option<usize>, usize>)
        requires
            old(self)@.is_for(old(d)@),
        ensures
            final(self)@ == old(self)@,
            reads_lead_to(old(self)@, old(d)@, first, reads@, r, final(d)@),
    {
        let ghost all = seq![first] + reads@;
        if reads.len() == 0 {
            return Err(first);
        }
        let mut attempt = self.begin(d, first);
        let mut n: usize = 0;
        while n < reads.len()
            invariant
                n <= reads.len(),
                old(self)@.is_for(old(d)@),
                self@ == old(self)@,
                all == seq![first] + reads@,
                attempt@ == all[n as int],
                forall|j: int| #![trigger all[j]] 0 <= j < n ==> all[j] != all[j + 1],
                d@ == old(self)@.announcing(old(d)@, all[n as int]),
            decreases reads.len() - n,
        {
            let read: usize = reads[n];
            assert(all[n + 1] == read);
            match self.go_on(d, attempt, read) {
                Ok(protected) => {
                    assert(is_first_repeat(all, n as int));
                    return Ok(protected);
                },
                Err(next) => {
                    assert(d@ =~= old(self)@.announcing(old(d)@, read));
                    attempt = next;
                },
            }
            n = n + 1;
        }
        let last: usize = self.give_up(d, attempt);
        assert(d@ =~= old(self)@.announcing(old(d)@, 0));
        Err(last)
    }

    /// Announces `ptr`, which was read from `src`, and reads `src` again. If `src` still holds
    /// `ptr`, the object there is protected from now on; there is none if `ptr` is null.
    /// Otherwise nothing is, and the result is what `src` holds now.
    ///
    /// What is at `ptr` must be handed to deletion only by way of this domain: see
    /// [`HazPtrHolder::accepts`].
    pub fn try_protect(
        &mut self,
        d: &mut HazPtrDomain<F>,
        ptr: usize,
        src: &AtomicUsize,
    ) -> (r: Result<Option<usize>, usize>)
        requires
            old(self)@.is_for(old(d)@),
        ensures
            final(self)@ == old(self)@,
            match r {
                Ok(protected) => {
                    &&& call_ensures(AtomicUsize::load, (src, Ordering::Acquire), ptr)
                    &&& protected == if ptr == 0 {
                        None::<usize>
                    } else {
                        Some(ptr)
                    }
                    &&& final(d)@ == old(self)@.announcing(old(d)@, ptr)
                },
                Err(ptr2) => {
                    &&& call_ensures(AtomicUsize::load, (src, Ordering::Acquire), ptr2)
                    &&& ptr2 != ptr
                    &&& final(d)@ == old(self)@.announcing(old(d)@, 0)
                },
            },
            // What was read while the address was announced decides.
            exists|held: usize| #[trigger]
                source::were_read(src, seq![(old(self)@.announcing(old(d)@, ptr), held)])
                    && held_leads_to(old(self)@, old(d)@, ptr, held, r, final(d)@),
    {
        let mut watch = Watch::new(src);
        self.announce(d, ptr);
        let ptr2: usize = watch.load_again(d);
        assert(watch.log() =~= seq![(old(self)@.announcing(old(d)@, ptr), ptr2)]);
        let r = self.validate(d, ptr, ptr2);
        proof {
            let slot = self@.slot;
            assert(old(d)@.hazptrs.update(slot, d@.hazptrs[slot]) =~= d@.hazptrs);
        }
        r
    }

    /// Protects what `src` points to, if anything: reads `src` and tries until it holds the same
    /// address before and after the announcement. Gives up after so many attempts, with nothing
    /// protected and the address that was read last.
    pub fn protect(&mut self, d: &mut HazPtrDomain<F>, src: &AtomicUsize, attempts: usize) -> (r:
        Result<Option<usize>, usize>)
        requires
            old(self)@.is_for(old(d)@),
        ensures
            final(self)@ == old(self)@,
            exists|first: usize, reads: Seq<usize>|
                {
                    &&& reads.len() == attempts
                    &&& call_ensures(AtomicUsize::load, (src, Ordering::Relaxed), first)
                    &&& forall|i: int|
                        0 <= i < reads.len() ==> call_ensures(
                            AtomicUsize::load,
                            (src, Ordering::Acquire),
                            #[trigger] reads[i],
                        )
                    &&& #[trigger] reads_lead_to(
                        old(self)@,
                        old(d)@,
                        first,
                        reads,
                        r,
                        final(d)@,
                    )
                },
            match r {
                Ok(protected) => {
                    let ptr = match protected {
                        Some(p) => p,
                        None => 0,
                    };
                    &&& attempts > 0
                    &&& protected != Some(0usize)
                    &&& call_ensures(AtomicUsize::load, (src, Ordering::Acquire), ptr)
                    &&& final(d)@ == old(self)@.announcing(old(d)@, ptr)
                },
                Err(ptr) if attempts == 0 => {
                    &&& call_ensures(AtomicUsize::load, (src, Ordering::Relaxed), ptr)
                    &&& final(d)@ == old(d)@
                },
                Err(ptr) => {
                    &&& call_ensures(AtomicUsize::load, (src, Ordering::Acquire), ptr)
                    &&& final(d)@ == old(self)@.announcing(old(d)@, 0)
                },
            },
            // Each address was read while the one before was announced, until it was the same.
            exists|log: Seq<(DomainView, usize)>|
                {
                    let n = log.len();
                    &&& #[trigger] source::were_read(src, log)
                    &&& 1 <= n <= attempts + 1
                    &&& log[0].0 == old(d)@
                    &&& forall|i: int|
                        0 < i < n ==> (#[trigger] log[i]).0 == old(self)@.announcing(
                            old(d)@,
                            log[i - 1].1,
                        )
                    &&& forall|i: int| 0 < i < n - 1 ==> (#[trigger] log[i]).1 != log[i - 1].1
                    &&& match r {
                        Ok(protected) => {
                            &&& n > 1
                            &&& log[n - 1].1 == log[n - 2].1
                            &&& protected == if log[n - 1].1 == 0 {
                                None::<usize>
                            } else {
                                Some(log[n - 1].1)
                            }
                            &&& final(d)@ == old(self)@.announcing(old(d)@, log[n - 1].1)
                        },
                        Err(ptr) => {
                            &&& n == attempts + 1
                            &&& n > 1 ==> log[n - 1].1 != log[n - 2].1
                            &&& ptr == log[n - 1].1
                            &&& final(d)@ == if attempts == 0 {
                                old(d)@
                            } else {
                                old(self)@.announcing(old(d)@, 0)
                            }
                        },
                    }
                },
    {
        let mut watch = Watch::new(src);
        let first: usize = watch.load_first(d);
        let ghost mut reads: Seq<usize> = Seq::empty();
        if attempts == 0 {
            assert(reads_lead_to(old(self)@, old(d)@, first, reads, Err(first), d@));
            assert(source::were_read(src, watch.log()));
            return Err(first);
        }
        let mut attempt = self.begin(d, first);
        let mut left: usize = attempts;
        while left > 0
            invariant
                left <= attempts,
                0 < attempts,
                reads.len() == attempts - left,
                watch.source() == src,
                source::were_read(src, watch.log()),
                watch.log().len() == reads.len() + 1,
                watch.log()[0] == (old(d)@, first),
                forall|i: int|
                    0 < i <= reads.len() ==> #[trigger] watch.log()[i] == (
                        old(self)@.announcing(old(d)@, watch.log()[i - 1].1),
                        reads[i - 1],
                    ),
                forall|i: int|
                    0 < i <= reads.len() ==> (#[trigger] watch.log()[i]).1 != watch.log()[i - 1].1,
                attempt@ == watch.log().last().1,
                call_ensures(AtomicUsize::load, (src, Ordering::Relaxed), first),
                forall|i: int|
                    0 <= i < reads.len() ==> call_ensures(
                        AtomicUsize::load,
                        (src, Ordering::Acquire),
                        #[trigger] reads[i],
                    ),
                old(self)@.is_for(old(d)@),
                self@ == old(self)@,
                attempt@ == (seq![first] + reads).last(),
                has_no_repeat(seq![first] + reads),
                d@ == old(self)@.announcing(old(d)@, attempt@),
            decreases left,
        {
            let ghost before = watch.log();
            let read: usize = watch.load_again(d);
            assert(watch.log().drop_last() =~= before);
            match self.go_on(d, attempt, read) {
                Ok(protected) => {
                    proof {
                        lemma_read_twice(old(self)@, old(d)@, first, reads, read, attempts);
                        assert(source::were_read(src, watch.log()));
                    }
                    return Ok(protected);
                },
                Err(next) => {
                    assert(d@ =~= old(self)@.announcing(old(d)@, read));
                    proof {
                        lemma_read_on(first, reads, read);
                        reads = reads.push(read);
                    }
                    attempt = next;
                },
            }
            left = left - 1;
        }
        let last: usize = self.give_up(d, attempt);
        assert(d@ =~= old(self)@.announcing(old(d)@, 0));
        assert(reads_lead_to(old(self)@, old(d)@, first, reads, Err(last), d@));
        assert(source::were_read(src, watch.log()));
        Err(last)
    }

    /// Whether an object is to be retired in the domain of the hazard pointer, without which the
    /// hazard pointer does not protect it.
    pub fn accepts<O: HazPtrObject<F>>(&self, o: &O) -> (b: bool)
        ensures
            b == (o.home() == self@.domain),
    {
        o.domain() == self.domain
    }

    /// Stops protecting anything.
    pub fn reset(&mut self, d: &mut HazPtrDomain<F>)
        requires
            old(self)@.is_for(old(d)@),
        ensures
            final(self)@ == old(self)@,
            final(d)@ == old(self)@.announcing(old(d)@, 0),
    {
        let mut hazard: HazPtr = d.hazptr(self.slot);
        hazard.reset();
        d.set_hazptr(self.slot, hazard);
    }

    /// Stops protecting anything and gives the hazard pointer up.
    pub fn drop(self, d: &mut HazPtrDomain<F>)
        requires
            self@.is_for(old(d)@),
        ensures
            final(d)@ == old(d)@.with_hazptr(
                self@.slot,
                HazPtr { ptr: 0, active: false },
            ),
    {
        let mut holder = self;
        holder.reset(d);
        d.release(holder.slot);
        proof {
            assert(d@.hazptrs =~= old(d)@.hazptrs.update(
                self@.slot,
                HazPtr { ptr: 0, active: false },
            ));
        }
    }
}

} // verus!
