use hazptr::domain::clock_time;
use hazptr::{Deleter, DomainId, Domains, HazPtr, HazPtrDomain, Retired};
use std::collections::HashSet;

struct Nop;

impl Deleter for Nop {
    fn delete(&self, _ptr: usize) {}
}

fn at(ptr: usize) -> Retired {
    Retired { data_ptr: ptr, deleter: &Nop }
}

fn ptrs(objs: &Vec<Retired>) -> Vec<usize> {
    objs.iter().map(|r| r.data_ptr).collect()
}

fn domain() -> HazPtrDomain<()> {
    two_domains().0
}

/// Two domains of one program.
fn two_domains() -> (HazPtrDomain<()>, HazPtrDomain<()>) {
    let mut all = Domains::new();
    let mut make = || HazPtrDomain::new(all.number().unwrap());
    (make(), make())
}

/// Takes a hazard pointer and announces `ptr` with it.
fn announce(d: &mut HazPtrDomain<()>, ptr: usize) -> hazptr::HazPtrHolder<()> {
    let mut h = hazptr::HazPtrHolder::for_domain(d);
    h.announce(d, ptr);
    h
}

#[test]
fn a_new_domain_is_empty() {
    let d = domain();
    assert_eq!(d.id(), DomainId::Own(0));
    assert_eq!(d.hazptrs_len(), 0);
    assert_eq!(d.hazptr_count(), 0);
    assert_eq!(d.retired_len(), 0);
    assert_eq!(d.retired_count(), 0);
    assert_eq!(d.sync_time(), 0);
    assert_eq!(d.nbulk_reclaims(), 0);
}

#[test]
fn the_shared_domain_is_no_other() {
    let mut all = Domains::new();
    let d = HazPtrDomain::shared(&mut all);
    assert_eq!(d.id(), DomainId::Shared);
    assert_ne!(d.id(), domain().id());
    assert_eq!(d.hazptrs_len(), 0);
    assert_eq!(d.retired_len(), 0);
}

#[test]
fn the_shared_domain_is_always_the_same() {
    let mut all = Domains::new();
    assert_eq!(HazPtrDomain::shared(&mut all).acquire(), 0);
    let mut due = Vec::new();
    HazPtrDomain::shared(&mut all).retire(at(8), 0, &mut due);
    let d = HazPtrDomain::shared(&mut all);
    assert_eq!((d.hazptrs_len(), d.retired_len()), (1, 1));
}

#[test]
fn every_domain_has_a_number_of_its_own() {
    let mut all = Domains::new();
    let mut ids = Vec::new();
    for _ in 0..5 {
        let d: HazPtrDomain<()> = HazPtrDomain::new(all.number().unwrap());
        assert!(!ids.contains(&d.id()));
        ids.push(d.id());
    }
}

#[test]
fn there_are_as_many_hazard_pointers_as_holders_at_once() {
    let mut d = domain();
    let h = announce(&mut d, 8);
    let k = announce(&mut d, 16);
    h.drop(&mut d);
    let l = announce(&mut d, 24);
    k.drop(&mut d);
    l.drop(&mut d);
    let m = announce(&mut d, 32);
    assert_eq!(d.hazptrs_len(), 2);
    for slot in 0..2 {
        assert_eq!(d.hazptr(slot).ptr, if slot == m.slot() { 32 } else { 0 });
    }
}

#[test]
fn hazard_pointers_are_made_when_all_are_taken() {
    let mut d = domain();
    assert_eq!(d.try_acquire_existing(), None);
    assert_eq!(d.acquire(), 0);
    assert_eq!(d.acquire(), 1);
    assert_eq!(d.acquire_new(), 2);
    assert_eq!(d.hazptrs_len(), 3);
    assert_eq!(d.hazptr_count(), 3);
    assert_eq!(d.hazptr(2), HazPtr { ptr: 0, active: true });
}

#[test]
fn hazard_pointers_are_reused_newest_first() {
    let mut d = domain();
    for _ in 0..3 {
        d.acquire();
    }
    d.release(0);
    d.release(1);
    assert_eq!(d.acquire(), 1);
    assert_eq!(d.acquire(), 0);
    assert_eq!(d.acquire(), 3);
    assert_eq!(d.hazptrs_len(), 4);
}

#[test]
fn acquiring_leaves_an_old_announcement() {
    let mut d = domain();
    let h = announce(&mut d, 8);
    d.release(h.slot());
    assert_eq!(d.hazptr(0), HazPtr { ptr: 8, active: false });
    assert_eq!(d.acquire(), 0);
    assert_eq!(d.hazptr(0), HazPtr { ptr: 8, active: true });
}

#[test]
fn a_retired_object_waits_until_it_is_time() {
    let mut d = domain();
    let mut due = Vec::new();
    d.retire(at(8), 0, &mut due);
    assert_eq!(due.len(), 0);
    assert_eq!(d.retired_len(), 1);
    assert_eq!(d.retired_count(), 1);
    assert_eq!(d.sync_time(), 0);
}

#[test]
fn the_first_retirement_cleans_up() {
    let mut d = domain();
    let mut due = Vec::new();
    d.retire(at(8), 1, &mut due);
    assert_eq!(ptrs(&due), vec![8]);
    assert_eq!(d.retired_len(), 0);
    assert_eq!(d.retired_count(), 0);
    assert_eq!(d.sync_time(), 2_000_000_001);
    assert_eq!(d.nbulk_reclaims(), 0);
}

#[test]
fn timed_cleanups_keep_their_distance() {
    let mut d = domain();
    let mut due = Vec::new();
    d.retire(at(8), 1, &mut due);
    d.retire(at(16), 2_000_000_001, &mut due);
    assert_eq!(ptrs(&due), vec![8]);
    d.retire(at(24), 2_000_000_002, &mut due);
    assert_eq!(ptrs(&due), vec![8, 24, 16]);
    assert_eq!(d.sync_time(), 4_000_000_002);
}

#[test]
fn the_sync_time_is_claimed_once() {
    let mut d = domain();
    assert!(!d.check_sync_time(0));
    assert!(d.check_sync_time(5));
    assert_eq!(d.sync_time(), 2_000_000_005);
    assert!(!d.check_sync_time(5));
    assert!(!d.check_sync_time(2_000_000_005));
    assert!(d.check_sync_time(2_000_000_006));
}

#[test]
fn a_timed_cleanup_says_whether_it_was_made() {
    let mut d = domain();
    let mut due = Vec::new();
    d.retire(at(8), 0, &mut due);
    assert!(!d.try_timed_cleanup(0, &mut due));
    assert_eq!(due.len(), 0);
    assert!(d.try_timed_cleanup(7, &mut due));
    assert_eq!(ptrs(&due), vec![8]);
    assert_eq!(d.retired_count(), 0);
}

#[test]
fn a_guarded_object_stays_retired() {
    let mut d = domain();
    let mut due = Vec::new();
    let mut h = announce(&mut d, 8);
    d.retire(at(8), 1, &mut due);
    assert_eq!(due.len(), 0);
    assert_eq!(d.retired_len(), 1);
    assert_eq!(d.retired_count(), 1);
    assert_eq!(d.eager_reclaim(false, &mut due), 0);
    assert_eq!(d.retired_len(), 1);
    h.reset(&mut d);
    assert_eq!(d.eager_reclaim(false, &mut due), 1);
    assert_eq!(ptrs(&due), vec![8]);
}

#[test]
fn an_inactive_hazard_pointer_guards_nothing() {
    let mut d = domain();
    let mut due = Vec::new();
    let h = announce(&mut d, 8);
    d.release(h.slot());
    d.retire(at(8), 0, &mut due);
    assert_eq!(d.eager_reclaim(true, &mut due), 1);
    assert_eq!(ptrs(&due), vec![8]);
}

#[test]
fn thresholds() {
    assert!(!HazPtrDomain::<()>::reached_threshold(999, 0));
    assert!(HazPtrDomain::<()>::reached_threshold(1000, 0));
    assert!(HazPtrDomain::<()>::reached_threshold(1000, 500));
    assert!(!HazPtrDomain::<()>::reached_threshold(1000, 501));
    assert!(!HazPtrDomain::<()>::reached_threshold(1001, 501));
    assert!(HazPtrDomain::<()>::reached_threshold(1002, 501));
    assert!(HazPtrDomain::<()>::reached_threshold(1000, -7));
    assert!(!HazPtrDomain::<()>::reached_threshold(-1000, -2000));
    assert!(!HazPtrDomain::<()>::reached_threshold(isize::MAX, isize::MAX));
}

#[test]
fn many_retired_objects_start_a_cleanup() {
    let mut d = domain();
    let mut due = Vec::new();
    for i in 1..1000 {
        d.retire(at(8 * i), 0, &mut due);
    }
    assert_eq!(due.len(), 0);
    assert_eq!(d.retired_count(), 999);
    d.retire(at(8000), 0, &mut due);
    assert_eq!(due.len(), 1000);
    assert_eq!(due[0].data_ptr, 8000);
    assert_eq!(due[999].data_ptr, 8);
    assert_eq!(d.retired_len(), 0);
    assert_eq!(d.retired_count(), 0);
}

#[test]
fn many_hazard_pointers_ask_for_more_retired_objects() {
    let mut d = domain();
    let mut due = Vec::new();
    for _ in 0..501 {
        d.acquire();
    }
    for i in 1..1002 {
        d.retire(at(8 * i), 0, &mut due);
    }
    assert_eq!(due.len(), 0);
    d.try_bulk_reclaim(&mut due);
    assert_eq!(due.len(), 0);
    d.retire(at(9000), 0, &mut due);
    assert_eq!(due.len(), 1002);
}

#[test]
fn a_pass_takes_the_topmost_object_first() {
    let mut d = domain();
    let mut due = Vec::new();
    for p in [8, 16, 24, 32] {
        d.retire(at(p), 0, &mut due);
    }
    let mut h = announce(&mut d, 16);
    let mut k = announce(&mut d, 24);
    assert_eq!(d.bulk_reclaim(false, &mut due), 2);
    assert_eq!(ptrs(&due), vec![32, 8]);
    assert_eq!(d.retired_len(), 2);
    assert_eq!(d.retired_count(), 2);
    h.reset(&mut d);
    k.reset(&mut d);
    // What was put back lies the other way round.
    assert_eq!(d.bulk_reclaim(false, &mut due), 2);
    assert_eq!(ptrs(&due), vec![32, 8, 16, 24]);
    assert_eq!(d.retired_count(), 0);
}

#[test]
fn a_timed_cleanup_counts_what_it_puts_back_once() {
    let mut d = domain();
    let mut due = Vec::new();
    for p in [8, 16, 24] {
        d.retire(at(p), 0, &mut due);
    }
    let mut h = announce(&mut d, 16);
    d.retire(at(32), 1, &mut due);
    assert_eq!(ptrs(&due), vec![32, 24, 8]);
    assert_eq!((d.retired_len(), d.retired_count()), (1, 1));
    h.reset(&mut d);
    d.retire(at(40), 2_000_000_002, &mut due);
    assert_eq!((d.retired_len(), d.retired_count()), (0, 0));
}

#[test]
fn a_cleanup_by_numbers_counts_what_it_puts_back_once() {
    let mut d = domain();
    let mut due = Vec::new();
    let _h = announce(&mut d, 16);
    for i in 1..1001 {
        d.retire(at(8 * i), 0, &mut due);
    }
    assert_eq!(due.len(), 999);
    assert_eq!((d.retired_len(), d.retired_count()), (1, 1));
}

#[test]
fn as_many_objects_are_counted_as_are_retired() {
    let mut d = domain();
    let mut due = Vec::new();
    let mut h = announce(&mut d, 24);
    let mut now = 0;
    for i in 1..50 {
        now += 300_000_000;
        if i % 7 == 0 {
            h.announce(&mut d, 8 * i);
        }
        d.retire(at(8 * i), now, &mut due);
        assert_eq!(d.retired_count(), d.retired_len() as isize);
        if i % 10 == 0 {
            d.eager_reclaim(false, &mut due);
            assert_eq!(d.retired_count(), d.retired_len() as isize);
        }
    }
    h.drop(&mut d);
    let left = d.retired_count();
    assert_eq!(d.drop(&mut due) as isize, left);
    assert_eq!(due.len(), 49);
}

#[test]
fn a_pass_over_nothing_is_not_counted_out() {
    let mut d = domain();
    let mut due = Vec::new();
    assert_eq!(d.eager_reclaim(true, &mut due), 0);
    assert_eq!(d.nbulk_reclaims(), 1);
    d.retire(at(8), 0, &mut due);
    assert_eq!(d.eager_reclaim(true, &mut due), 1);
    assert_eq!(d.nbulk_reclaims(), 1);
}

#[test]
fn a_second_pass_finds_nothing_more() {
    let mut d = domain();
    let mut due = Vec::new();
    for p in [8, 16, 24] {
        d.retire(at(p), 0, &mut due);
    }
    let _h = announce(&mut d, 16);
    assert_eq!(d.eager_reclaim(false, &mut due), 2);
    assert_eq!(d.eager_reclaim(false, &mut due), 0);
    assert_eq!(ptrs(&due), vec![24, 8]);
}

#[test]
fn what_is_due_is_added() {
    let mut d = domain();
    let mut due = vec![at(1)];
    d.retire(at(8), 0, &mut due);
    d.relaxed_cleanup(&mut due);
    assert_eq!(ptrs(&due), vec![1, 8]);
    assert_eq!(d.retired_count(), 0);
}

#[test]
fn looking_stolen_objects_up() {
    let mut d = domain();
    let mut due = Vec::new();
    d.retire(at(40), 0, &mut due);
    let guarded: HashSet<usize> = [8, 24].into_iter().collect();
    let stolen = vec![at(8), at(16), at(24)];
    assert_eq!(d.bulk_lookup_and_reclaim(stolen, guarded, &mut due), (1, false));
    assert_eq!(ptrs(&due), vec![16]);
    assert_eq!(d.retired_len(), 3);
    // One was counted, and one was taken off: what is put back is not counted again.
    assert_eq!(d.retired_count(), 0);
    assert_eq!(d.eager_reclaim(false, &mut due), 3);
    assert_eq!(ptrs(&due), vec![16, 8, 24, 40]);
    let (n, done) = d.bulk_lookup_and_reclaim(Vec::new(), HashSet::new(), &mut due);
    assert_eq!((n, done), (0, true));
}

#[test]
fn the_end_of_a_domain_hands_everything_out() {
    let mut d = domain();
    let mut due = Vec::new();
    let h = announce(&mut d, 8);
    for p in [8, 16, 24] {
        d.retire(at(p), 0, &mut due);
    }
    h.drop(&mut d);
    assert_eq!(d.drop(&mut due), 3);
    assert_eq!(ptrs(&due), vec![24, 16, 8]);
}

#[test]
fn nothing_is_lost_or_handed_out_twice() {
    let mut d = domain();
    let mut due = Vec::new();
    let _h = announce(&mut d, 24);
    let mut now = 0;
    for i in 1..50 {
        now += 300_000_000;
        d.retire(at(8 * i), now, &mut due);
    }
    let handed_out = due.len();
    assert_eq!(handed_out + d.retired_len(), 49);
    d.release(0);
    d.eager_reclaim(false, &mut due);
    let mut all = ptrs(&due);
    all.sort();
    assert_eq!(all, (1..50).map(|i| 8 * i).collect::<Vec<usize>>());
}

#[test]
fn retiring_and_reclaiming_leave_the_hazard_pointers() {
    let mut d = domain();
    let mut due = Vec::new();
    let _h = announce(&mut d, 8);
    let k = announce(&mut d, 16);
    d.release(k.slot());
    d.retire(at(8), 1, &mut due);
    d.eager_reclaim(true, &mut due);
    assert_eq!(d.hazptr(0), HazPtr { ptr: 8, active: true });
    assert_eq!(d.hazptr(1), HazPtr { ptr: 16, active: false });
    assert_eq!(d.hazptrs_len(), 2);
    assert_eq!(d.hazptr_count(), 2);
}

#[test]
fn clock_times() {
    assert_eq!(clock_time(0), Some(0));
    assert_eq!(clock_time(u64::MAX as u128), Some(u64::MAX));
    assert_eq!(clock_time(u64::MAX as u128 + 1), None);
}
