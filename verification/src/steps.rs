//! What a single step of a reclaimer or of an acquirer does, whatever others do between the steps.
use crate::acquirer::{AcquirerView, Search};
use crate::model::{DomainId, DomainView};
use crate::ptr::HazPtr;
use crate::reclaimer::{Phase, ReclaimerView};
use vstd::prelude::*;

verus! {

/// A reclaimer begins with empty hands, and having handed out nothing.
pub proof fn law_starting_is_empty(id: DomainId, phase: Phase, transitive: bool)
    ensures
        ({
            let r = ReclaimerView::starting(id, phase, transitive);
            &&& r.id == id && r.phase == phase && r.transitive == transitive
            &&& r.stolen.len() == 0 && r.kept.len() == 0
            &&& forall|p: usize| !(#[trigger] r.guarded.contains(p))
            &&& r.reclaimed_now == 0 && r.reclaimed == 0 && !r.done
        }),
{
}

/// A reclaimer fits a domain if it works on that one, and the hazard pointer that it reads next is
/// there; the time matters only to the step that reads it.
pub proof fn law_when_a_step_fits(r: ReclaimerView, d: DomainView, now: u64)
    requires
        r.reclaimed_now + r.kept.len() + r.stolen.len() <= usize::MAX,
    ensures
        r.wf(d) <==> r.id == d.id && (r.phase matches Phase::LoadActive(n) ==> n
            <= d.hazptrs.len()) && (r.phase matches Phase::LoadPtr(n) ==> n < d.hazptrs.len()),
        r.can_tell(d, now) <==> (r.phase is LoadSyncTime && now > d.sync_time ==> now
            + 2_000_000_000 <= u64::MAX),
{
}

/// A step hands an object out if and only if it looks the topmost stolen one up and has not found
/// its address announced; what it looks up it has hold of no more, or keeps.
pub proof fn law_step_hands_out_what_is_unguarded(r: ReclaimerView, d: DomainView, now: u64)
    ensures
        ({
            let s = r.step(d, now);
            let top = r.stolen.last();
            let looks = r.phase is Lookup && r.stolen.len() > 0;
            &&& s.due is Some <==> looks && !r.guarded.contains(top.data_ptr)
            &&& s.due is Some ==> s.due == Some(top)
            &&& looks ==> {
                &&& s.reclaimer.stolen == r.stolen.drop_last()
                &&& s.reclaimer.phase is Lookup
                &&& s.domain == d
                &&& r.guarded.contains(top.data_ptr) ==> s.reclaimer.kept == r.kept.push(top)
                    && s.reclaimer.reclaimed_now == r.reclaimed_now
                &&& !r.guarded.contains(top.data_ptr) ==> s.reclaimer.kept == r.kept && (
                r.reclaimed_now < usize::MAX ==> s.reclaimer.reclaimed_now == r.reclaimed_now + 1)
            }
            &&& r.phase is Lookup && r.stolen.len() == 0 ==> s.reclaimer.phase is LoadDone
                && s.domain == d && s.reclaimer.kept == r.kept && s.reclaimer.reclaimed_now
                == r.reclaimed_now
        }),
{
}

/// The retired objects change in three ways only: the object that is retired comes to lie on top,
/// all are taken away, or those that were kept are put back on top.
pub proof fn law_step_changes_the_list(r: ReclaimerView, d: DomainView, now: u64)
    ensures
        ({
            let s = r.step(d, now);
            &&& r.phase matches Phase::Push(obj) ==> s.domain.retired == d.retired.push(obj)
            &&& r.phase is Steal ==> s.domain.retired.len() == 0
            &&& r.phase is Splice ==> s.domain.retired == d.retired + r.kept
                && s.reclaimer.kept.len() == 0
            &&& !(r.phase is Push || r.phase is Steal || r.phase is Splice) ==> s.domain.retired
                == d.retired
            &&& r.phase is Steal && d.retired.len() > 0 ==> {
                &&& s.reclaimer.stolen == d.retired
                &&& s.reclaimer.kept.len() == 0 && s.reclaimer.reclaimed_now == 0
                &&& forall|p: usize| !(#[trigger] s.reclaimer.guarded.contains(p))
            }
            &&& !(r.phase is Steal || r.phase is Lookup) ==> s.reclaimer.stolen == r.stolen
            &&& !(r.phase is Steal || r.phase is Lookup || r.phase is Splice)
                ==> s.reclaimer.kept == r.kept
            &&& !(r.phase is Steal || r.phase is Lookup) ==> s.reclaimer.reclaimed_now
                == r.reclaimed_now
        }),
{
}

/// The count goes up by one for the object that is retired, before that is put onto the others, and
/// down by as many as were handed out during a pass; nothing else changes it.
pub proof fn law_step_changes_the_count(r: ReclaimerView, d: DomainView, now: u64)
    ensures
        ({
            let s = r.step(d, now);
            &&& r.phase matches Phase::CountRetired(obj) ==> {
                &&& d.retired_count < isize::MAX ==> s.domain.retired_count == d.retired_count + 1
                &&& s.reclaimer.phase == Phase::Push(obj)
            }
            &&& r.phase is Push ==> s.reclaimer.phase is LoadSyncTime
            &&& r.phase is SubtractDue && r.reclaimed_now <= isize::MAX && d.retired_count
                - r.reclaimed_now >= isize::MIN ==> s.domain.retired_count == d.retired_count
                - r.reclaimed_now
            &&& !(r.phase is CountRetired || r.phase is SubtractDue) ==> s.domain.retired_count
                == d.retired_count
        }),
{
}

/// A reclaimer finds a timed cleanup due if the time is past that of the next one. It claims it, for
/// two seconds from then, if nobody else has done so meanwhile, and then it will go on until nothing
/// more is retired; nothing else changes the time of the next one. What is left is for the numbers to
/// decide.
pub proof fn law_step_changes_the_time(r: ReclaimerView, d: DomainView, now: u64)
    ensures
        ({
            let s = r.step(d, now);
            &&& r.phase is LoadSyncTime && now > d.sync_time && now + 2_000_000_000 <= u64::MAX
                ==> s.reclaimer.phase == (Phase::ClaimSyncTime {
                seen: d.sync_time,
                until: (now + 2_000_000_000) as u64,
            })
            &&& r.phase is LoadSyncTime && now <= d.sync_time ==> s.reclaimer.phase
                is LoadRetiredCount
            &&& r.phase matches Phase::ClaimSyncTime { seen, until } ==> {
                &&& d.sync_time == seen ==> s.domain.sync_time == until && s.reclaimer.phase
                    is Begin && s.reclaimer.transitive
                &&& d.sync_time != seen ==> s.domain.sync_time == d.sync_time
                    && s.reclaimer.phase is LoadRetiredCount
            }
            &&& !(r.phase is ClaimSyncTime) ==> s.domain.sync_time == d.sync_time
        }),
{
}

/// The numbers start a pass if they ask for it twice: at least a thousand retired objects, and at
/// least twice as many as hazard pointers. That pass is not followed by another.
pub proof fn law_step_goes_by_the_numbers(r: ReclaimerView, d: DomainView, now: u64)
    ensures
        ({
            let s = r.step(d, now);
            &&& r.phase is LoadRetiredCount ==> s.reclaimer.phase == (Phase::LoadHazPtrCount {
                rc: d.retired_count,
            })
            &&& r.phase matches Phase::LoadHazPtrCount { rc } ==> if rc >= 1000 && rc >= 2
                * d.hazptr_count {
                s.reclaimer.phase is ReloadHazPtrCount
            } else {
                s.reclaimer.phase is Finished
            }
            &&& r.phase is ReloadHazPtrCount ==> s.reclaimer.phase == (Phase::ReloadRetiredCount {
                hc: d.hazptr_count,
            })
            &&& r.phase matches Phase::ReloadRetiredCount { hc } ==> if d.retired_count >= 1000
                && d.retired_count >= 2 * hc {
                s.reclaimer.phase is Begin && !s.reclaimer.transitive
            } else {
                s.reclaimer.phase is Finished
            }
            &&& !(r.phase is ClaimSyncTime || r.phase is ReloadRetiredCount)
                ==> s.reclaimer.transitive == r.transitive
        }),
{
}

/// Every hazard pointer that there is when the scan begins is looked at, the newest first. Those that
/// are active have the address that they announce noted, and no other address is.
pub proof fn law_step_scans(r: ReclaimerView, d: DomainView, now: u64)
    requires
        d.hazptrs.len() <= usize::MAX,
    ensures
        ({
            let s = r.step(d, now);
            &&& r.phase is LoadHead ==> s.reclaimer.phase == Phase::LoadActive(
                d.hazptrs.len() as usize,
            )
            &&& r.phase matches Phase::LoadActive(n) ==> {
                &&& n == 0 ==> s.reclaimer.phase is Lookup
                &&& n > 0 && d.hazptrs[n - 1].active ==> s.reclaimer.phase == Phase::LoadPtr(
                    (n - 1) as usize,
                )
                &&& n > 0 && !d.hazptrs[n - 1].active ==> s.reclaimer.phase == Phase::LoadActive(
                    (n - 1) as usize,
                )
            }
            &&& r.phase matches Phase::LoadPtr(n) ==> {
                &&& s.reclaimer.phase == Phase::LoadActive(n)
                &&& forall|p: usize| #[trigger]
                    s.reclaimer.guarded.contains(p) <==> r.guarded.contains(p) || p
                        == d.hazptrs[n as int].ptr
            }
            &&& !(r.phase is LoadPtr || r.phase is Steal) ==> s.reclaimer.guarded == r.guarded
            &&& s.domain.hazptrs == d.hazptrs && s.domain.hazptr_count == d.hazptr_count
            &&& s.domain.id == d.id && s.reclaimer.id == r.id
        }),
{
}

/// A pass over nothing ends at once. Any other is followed by another one if and only if the
/// reclaimer is transitive and objects were retired meanwhile. What the passes have handed out is
/// summed up.
pub proof fn law_step_ends_a_pass(r: ReclaimerView, d: DomainView, now: u64)
    ensures
        ({
            let s = r.step(d, now);
            let passes = s.domain.nbulk_reclaims;
            &&& r.phase is Begin ==> s.reclaimer.phase is Steal
            &&& r.phase is Begin && d.nbulk_reclaims < usize::MAX ==> passes == d.nbulk_reclaims
                + 1
            &&& r.phase is Steal && d.retired.len() == 0 ==> s.reclaimer.phase is Finished
            &&& r.phase is Steal && d.retired.len() > 0 ==> s.reclaimer.phase is LoadHead
            &&& r.phase is LoadDone ==> s.reclaimer.phase is SubtractDue && (s.reclaimer.done
                <==> d.retired.len() == 0)
            &&& r.phase is SubtractDue && r.kept.len() == 0 ==> s.reclaimer.phase is End
            &&& r.phase is SubtractDue && r.kept.len() > 0 ==> s.reclaimer.phase is Splice
            &&& r.phase is Splice ==> s.reclaimer.phase is End
            &&& r.phase is End && (r.done || !r.transitive) ==> s.reclaimer.phase is Finished && (
            d.nbulk_reclaims > 0 ==> passes == d.nbulk_reclaims - 1)
            &&& r.phase is End && !r.done && r.transitive ==> s.reclaimer.phase is Steal && passes
                == d.nbulk_reclaims
            &&& r.phase is End && r.reclaimed + r.reclaimed_now <= usize::MAX
                ==> s.reclaimer.reclaimed == r.reclaimed + r.reclaimed_now
            &&& !(r.phase is End) ==> s.reclaimer.reclaimed == r.reclaimed
            &&& !(r.phase is LoadDone) ==> s.reclaimer.done == r.done
            &&& !(r.phase is Begin || r.phase is End) ==> passes == d.nbulk_reclaims
            &&& r.phase is Finished ==> s.reclaimer == r && s.domain == d
        }),
{
}

/// An acquirer looks at every hazard pointer that there is when it begins, the newest first, and
/// takes the first that is not active, leaving what that announces. If there is none, it makes a new
/// one, which is active and announces nothing, and counts it.
pub proof fn law_acquirer_takes_what_is_free(a: AcquirerView, d: DomainView)
    requires
        d.hazptrs.len() < usize::MAX,
    ensures
        ({
            let s = a.step(d);
            &&& s.acquirer.id == a.id
            &&& AcquirerView::starting(d.id).id == d.id
            &&& AcquirerView::starting(d.id).search is LoadHead
            &&& a.search is LoadHead ==> s.domain == d && s.acquirer.search == Search::TryAcquire(
                d.hazptrs.len() as usize,
            )
            &&& a.search matches Search::TryAcquire(n) ==> {
                &&& n == 0 ==> s.domain == d && s.acquirer.search is Push
                &&& n > 0 && d.hazptrs[n - 1].active ==> s.domain == d && s.acquirer.search
                    == Search::TryAcquire((n - 1) as usize)
                &&& 0 < n <= d.hazptrs.len() && !d.hazptrs[n - 1].active ==> {
                    &&& s.acquirer.search == Search::Acquired((n - 1) as usize)
                    &&& s.domain.hazptrs =~= d.hazptrs.update(
                        n - 1,
                        HazPtr { ptr: d.hazptrs[n - 1].ptr, active: true },
                    )
                    &&& s.domain.hazptr_count == d.hazptr_count
                }
            }
            &&& a.search is Push ==> {
                &&& s.acquirer.search == Search::Count(d.hazptrs.len() as usize)
                &&& s.domain.hazptrs =~= d.hazptrs.push(HazPtr { ptr: 0, active: true })
                &&& s.domain.hazptr_count == d.hazptr_count
            }
            &&& a.search matches Search::Count(slot) ==> {
                &&& s.acquirer.search == Search::Acquired(slot)
                &&& s.domain.hazptrs == d.hazptrs
                &&& d.hazptr_count < isize::MAX ==> s.domain.hazptr_count == d.hazptr_count + 1
            }
            &&& a.search is Acquired ==> s.acquirer == a && s.domain == d
            &&& s.domain.retired == d.retired && s.domain.retired_count == d.retired_count
            &&& s.domain.id == d.id && s.domain.sync_time == d.sync_time
            &&& s.domain.nbulk_reclaims == d.nbulk_reclaims
        }),
{
}

/// An acquirer fits a domain if it works on that one, and the hazard pointer that it tries next, or
/// has taken, is there.
pub proof fn law_when_an_acquirer_fits(a: AcquirerView, d: DomainView)
    ensures
        a.wf(d) <==> a.id == d.id && match a.search {
            Search::TryAcquire(n) => n <= d.hazptrs.len(),
            Search::Count(slot) => slot < d.hazptrs.len(),
            Search::Acquired(slot) => slot < d.hazptrs.len(),
            _ => true,
        },
{
}

} // verus!
