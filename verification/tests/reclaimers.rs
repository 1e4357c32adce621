use hazptr::{Deleter, Domains, HazPtrDomain, HazPtrHolder, Reclaimer, Retired};

struct Nop;

impl Deleter for Nop {
    fn delete(&self, _ptr: usize) {}
}

fn at(ptr: usize) -> Retired {
    Retired { data_ptr: ptr, deleter: &Nop }
}

fn domain() -> HazPtrDomain<()> {
    two_domains().0
}

/// Two domains of one program.
fn two_domains() -> (HazPtrDomain<()>, HazPtrDomain<()>) {
    let mut all = Domains::new();
    let mut make = || HazPtrDomain::new(all.number().unwrap());
    (make(), make())
}

/// Makes all the steps that are left, and returns the addresses that were handed out.
fn finish(r: &mut Reclaimer, d: &mut HazPtrDomain<()>, now: u64) -> Vec<usize> {
    let mut due = Vec::new();
    while !r.is_finished() {
        assert!(r.fits(d));
        if let Some(obj) = r.step(d, now) {
            due.push(obj.data_ptr);
        }
    }
    due
}

fn same(d: &HazPtrDomain<()>, e: &HazPtrDomain<()>) -> bool {
    d.retired_len() == e.retired_len()
        && d.retired_count() == e.retired_count()
        && d.sync_time() == e.sync_time()
        && d.nbulk_reclaims() == e.nbulk_reclaims()
        && d.hazptrs_len() == e.hazptrs_len()
        && d.hazptr_count() == e.hazptr_count()
}

/// Two domains with some objects retired and some of them guarded.
fn twins() -> (HazPtrDomain<()>, HazPtrDomain<()>) {
    let mut both = (domain(), domain());
    for d in [&mut both.0, &mut both.1] {
        let mut due = Vec::new();
        for p in [8, 16, 24, 32] {
            d.retire(at(p), 0, &mut due);
        }
        let mut h = HazPtrHolder::for_domain(d);
        h.announce(d, 24);
        HazPtrHolder::for_domain(d);
    }
    both
}

#[test]
fn an_undisturbed_pass_is_a_pass() {
    for transitive in [false, true] {
        let (mut d, mut e) = twins();
        let mut r = Reclaimer::bulk(&d, transitive);
        let due = finish(&mut r, &mut d, 0);
        let mut due2 = Vec::new();
        assert_eq!(r.reclaimed(), e.bulk_reclaim(transitive, &mut due2));
        assert_eq!(due, vec![32, 16, 8]);
        assert_eq!(due, due2.iter().map(|o| o.data_ptr).collect::<Vec<usize>>());
        assert!(same(&d, &e));
    }
}

#[test]
fn an_undisturbed_retirement_is_a_retirement() {
    for now in [0, 1] {
        let (mut d, mut e) = twins();
        let mut r = Reclaimer::retire(&d, at(40));
        let due = finish(&mut r, &mut d, now);
        let mut due2 = Vec::new();
        e.retire(at(40), now, &mut due2);
        assert_eq!(due.len(), if now == 0 { 0 } else { 4 });
        assert_eq!(due, due2.iter().map(|o| o.data_ptr).collect::<Vec<usize>>());
        assert!(same(&d, &e));
    }
}

#[test]
fn an_undisturbed_cleanup_is_a_cleanup() {
    for now in [0, 1] {
        let (mut d, mut e) = twins();
        let mut r = Reclaimer::cleanup(&d);
        let due = finish(&mut r, &mut d, now);
        let mut due2 = Vec::new();
        e.check_cleanup_and_reclaim(now, &mut due2);
        assert_eq!(due, due2.iter().map(|o| o.data_ptr).collect::<Vec<usize>>());
        assert!(same(&d, &e));
    }
}

#[test]
fn numbers_start_a_cleanup_step_by_step() {
    let mut d = domain();
    let mut due = Vec::new();
    for i in 1..1000 {
        d.retire(at(8 * i), 0, &mut due);
    }
    let mut r = Reclaimer::retire(&d, at(8000));
    let due = finish(&mut r, &mut d, 0);
    assert_eq!(due.len(), 1000);
    assert_eq!(r.reclaimed(), 1000);
    assert_eq!(d.retired_count(), 0);
}

#[test]
fn a_pass_over_nothing_ends_at_once() {
    let mut d = domain();
    let mut r = Reclaimer::bulk(&d, true);
    assert_eq!(finish(&mut r, &mut d, 0), Vec::<usize>::new());
    assert_eq!(r.reclaimed(), 0);
    assert_eq!(d.nbulk_reclaims(), 1);
}

#[test]
fn a_reclaimer_fits_its_domain_only() {
    let (d, e) = two_domains();
    let r = Reclaimer::bulk(&d, true);
    assert!(r.fits(&d));
    assert!(!r.fits(&e));
}

#[test]
fn a_reclaimer_does_not_fit_a_domain_with_fewer_hazard_pointers() {
    let mut d = domain();
    let mut due = Vec::new();
    d.retire(at(8), 0, &mut due);
    d.acquire();
    let mut r = Reclaimer::bulk(&d, true);
    for _ in 0..3 {
        r.step(&mut d, 0);
    }
    assert!(r.fits(&d));
    assert!(!r.fits(&domain()));
}

#[test]
fn a_late_announcement_is_not_validated() {
    // The reader has read 8, the writer swaps, retires and scans, and only then the reader
    // announces: the second read shows that the object is gone.
    let mut d = domain();
    let mut h = HazPtrHolder::for_domain(&mut d);
    let mut link = 8;
    let read = link;
    let old = link;
    link = 16;
    let mut r = Reclaimer::retire(&d, at(old));
    assert_eq!(finish(&mut r, &mut d, 1), vec![8]);
    h.announce(&mut d, read);
    assert_eq!(h.validate(&mut d, read, link), Err(16));
}

#[test]
fn an_announcement_in_the_middle_of_a_scan_is_seen() {
    // The object is stolen, and then the reader, which had validated before that, is found.
    let mut d = domain();
    let mut h = HazPtrHolder::for_domain(&mut d);
    h.announce(&mut d, 8);
    assert_eq!(h.validate(&mut d, 8, 8), Ok(Some(8)));
    let mut due = Vec::new();
    d.retire(at(8), 0, &mut due);
    let mut r = Reclaimer::bulk(&d, false);
    r.step(&mut d, 0);
    r.step(&mut d, 0);
    assert_eq!(d.retired_len(), 0);
    // Readers that come now do no harm.
    HazPtrHolder::for_domain(&mut d);
    assert_eq!(finish(&mut r, &mut d, 0), Vec::<usize>::new());
    assert_eq!(d.retired_len(), 1);
    h.reset(&mut d);
    assert_eq!(d.eager_reclaim(false, &mut due), 1);
}

#[test]
fn a_transitive_pass_goes_on() {
    // Deleting the first object retires another one.
    for transitive in [false, true] {
        let mut d = domain();
        let mut waiting = Vec::new();
        d.retire(at(8), 0, &mut waiting);
        let mut r = Reclaimer::bulk(&d, transitive);
        let mut handed_out = Vec::new();
        while !r.is_finished() {
            if let Some(obj) = r.step(&mut d, 0) {
                handed_out.push(obj.data_ptr);
                if obj.data_ptr == 8 {
                    d.retire(at(16), 0, &mut waiting);
                }
            }
        }
        if transitive {
            assert_eq!(handed_out, vec![8, 16]);
            assert_eq!(r.reclaimed(), 2);
            assert_eq!(d.retired_len(), 0);
        } else {
            assert_eq!(handed_out, vec![8]);
            assert_eq!(r.reclaimed(), 1);
            assert_eq!(d.retired_len(), 1);
        }
        assert_eq!(d.nbulk_reclaims(), 0);
    }
}

#[test]
fn two_timed_cleanups_do_not_start_at_once() {
    let mut d = domain();
    let mut r = Reclaimer::cleanup(&d);
    let mut s = Reclaimer::cleanup(&d);
    // Both see that it is time, and only the first one claims it.
    r.step(&mut d, 5);
    s.step(&mut d, 7);
    r.step(&mut d, 5);
    assert_eq!(d.sync_time(), 2_000_000_005);
    s.step(&mut d, 7);
    assert_eq!(d.sync_time(), 2_000_000_005);
    finish(&mut s, &mut d, 7);
    assert_eq!(d.nbulk_reclaims(), 0);
    finish(&mut r, &mut d, 5);
    assert_eq!(d.nbulk_reclaims(), 1);
}

#[test]
fn two_passes_share_the_objects() {
    let mut d = domain();
    let mut waiting = Vec::new();
    d.retire(at(8), 0, &mut waiting);
    let mut r = Reclaimer::bulk(&d, false);
    r.step(&mut d, 0);
    r.step(&mut d, 0);
    d.retire(at(16), 0, &mut waiting);
    let mut s = Reclaimer::bulk(&d, false);
    assert_eq!(finish(&mut s, &mut d, 0), vec![16]);
    assert_eq!(finish(&mut r, &mut d, 0), vec![8]);
    assert_eq!(d.retired_count(), 0);
}

#[test]
fn an_object_is_counted_before_it_is_listed() {
    let mut d = domain();
    let mut r = Reclaimer::retire(&d, at(8));
    r.step(&mut d, 0);
    assert_eq!((d.retired_count(), d.retired_len()), (1, 0));
    // A pass in between finds nothing, and leaves the count alone.
    let mut s = Reclaimer::bulk(&d, false);
    assert_eq!(finish(&mut s, &mut d, 0), Vec::<usize>::new());
    assert_eq!((d.retired_count(), d.retired_len()), (1, 0));
    r.step(&mut d, 0);
    assert_eq!((d.retired_count(), d.retired_len()), (1, 1));
}

#[test]
fn the_count_is_never_negative() {
    // Three passes and a retirement take their steps in turn, with one object guarded.
    let mut d = domain();
    let mut due = Vec::new();
    let mut h = HazPtrHolder::for_domain(&mut d);
    h.announce(&mut d, 16);
    for p in [8, 16, 24] {
        d.retire(at(p), 0, &mut due);
    }
    let mut all = vec![
        Reclaimer::bulk(&d, true),
        Reclaimer::retire(&d, at(32)),
        Reclaimer::bulk(&d, true),
        Reclaimer::cleanup(&d),
    ];
    let mut handed_out = Vec::new();
    while !all.iter().all(|r| r.is_finished()) {
        for r in all.iter_mut() {
            assert!(r.fits(&d));
            if let Some(obj) = r.step(&mut d, 1) {
                handed_out.push(obj.data_ptr);
            }
            assert!(d.retired_count() >= d.retired_len() as isize);
        }
    }
    assert_eq!(d.retired_count(), d.retired_len() as isize);
    h.reset(&mut d);
    d.eager_reclaim(false, &mut due);
    handed_out.extend(due.iter().map(|o| o.data_ptr));
    handed_out.sort();
    assert_eq!(handed_out, vec![8, 16, 24, 32]);
    assert_eq!((d.retired_count(), d.retired_len()), (0, 0));
}

#[test]
fn an_announced_object_survives_passes_and_goes_once() {
    // Announced before it was retired, and kept from two passes that cross.
    let mut d = domain();
    let mut h = HazPtrHolder::for_domain(&mut d);
    h.announce(&mut d, 8);
    let mut due = Vec::new();
    d.retire(at(8), 0, &mut due);
    let mut r = Reclaimer::bulk(&d, true);
    let mut s = Reclaimer::bulk(&d, true);
    while !r.is_finished() || !s.is_finished() {
        assert!(r.step(&mut d, 0).is_none());
        assert!(s.step(&mut d, 0).is_none());
    }
    assert_eq!(d.retired_len(), 1);
    h.announce(&mut d, 16);
    let mut r = Reclaimer::bulk(&d, true);
    assert_eq!(finish(&mut r, &mut d, 0), vec![8]);
    let mut r = Reclaimer::bulk(&d, true);
    assert_eq!(finish(&mut r, &mut d, 0), Vec::<usize>::new());
}

#[test]
fn one_step_reads_the_clock() {
    let mut d = domain();
    let mut r = Reclaimer::retire(&d, at(8));
    let mut steps = Vec::new();
    while !r.is_finished() {
        steps.push(r.reads_clock());
        r.step(&mut d, 0);
    }
    assert_eq!(steps, vec![false, false, true, false, false]);
    let mut r = Reclaimer::bulk(&d, true);
    while !r.is_finished() {
        assert!(!r.reads_clock());
        r.step(&mut d, 0);
    }
}
