use hazptr::{Acquirer, Domains, HazPtr, HazPtrDomain, HazPtrHolder};

fn domain() -> HazPtrDomain<()> {
    two_domains().0
}

/// Two domains of one program.
fn two_domains() -> (HazPtrDomain<()>, HazPtrDomain<()>) {
    let mut all = Domains::new();
    let mut make = || HazPtrDomain::new(all.number().unwrap());
    (make(), make())
}

/// Makes all the steps that are left, and returns the place that was taken.
fn finish(a: &mut Acquirer, d: &mut HazPtrDomain<()>) -> usize {
    loop {
        if let Some(slot) = a.acquired() {
            return slot;
        }
        assert!(a.fits(d));
        a.step(d);
    }
}

#[test]
fn an_undisturbed_acquirer_acquires() {
    let mut d = domain();
    let mut e = domain();
    for _ in 0..3 {
        let mut a = Acquirer::new(&d);
        assert_eq!(finish(&mut a, &mut d), e.acquire());
    }
    d.release(0);
    e.release(0);
    let mut a = Acquirer::new(&d);
    assert_eq!(finish(&mut a, &mut d), 0);
    assert_eq!(e.acquire(), 0);
    assert_eq!(d.hazptrs_len(), 3);
    assert_eq!(d.hazptr_count(), 3);
}

#[test]
fn a_new_hazard_pointer_is_there_before_it_is_counted() {
    let mut d = domain();
    let mut a = Acquirer::new(&d);
    for _ in 0..3 {
        a.step(&mut d);
    }
    assert_eq!(a.acquired(), None);
    assert_eq!(d.hazptrs_len(), 1);
    assert_eq!(d.hazptr_count(), 0);
    assert_eq!(d.hazptr(0), HazPtr { ptr: 0, active: true });
    a.step(&mut d);
    assert_eq!(a.acquired(), Some(0));
    assert_eq!(d.hazptr_count(), 1);
    a.step(&mut d);
    assert_eq!(d.hazptr_count(), 1);
}

#[test]
fn a_hazard_pointer_that_is_given_up_too_late_is_missed() {
    let mut d = domain();
    d.acquire();
    d.acquire();
    let mut a = Acquirer::new(&d);
    a.step(&mut d);
    a.step(&mut d);
    d.release(1);
    assert_eq!(finish(&mut a, &mut d), 2);
    assert_eq!(d.acquire(), 1);
}

#[test]
fn two_acquirers_take_different_hazard_pointers() {
    let mut d = domain();
    d.acquire();
    d.release(0);
    let mut a = Acquirer::new(&d);
    let mut b = Acquirer::new(&d);
    a.step(&mut d);
    b.step(&mut d);
    a.step(&mut d);
    b.step(&mut d);
    assert_eq!(finish(&mut a, &mut d), 0);
    assert_eq!(finish(&mut b, &mut d), 1);
}

#[test]
fn an_acquirer_fits_its_domain_only() {
    let (d, e) = two_domains();
    let a = Acquirer::new(&d);
    assert_eq!(a.id(), d.id());
    assert!(a.fits(&d));
    assert!(!a.fits(&e));
}

#[test]
fn what_was_acquired_can_be_held() {
    let mut d = domain();
    d.acquire();
    assert!(HazPtrHolder::<()>::for_acquired(Acquirer::new(&d)).is_none());
    let mut a = Acquirer::new(&d);
    finish(&mut a, &mut d);
    let mut h = HazPtrHolder::<()>::for_acquired(a).unwrap();
    assert!(h.is_for(&d));
    assert_eq!(h.slot(), 1);
    h.announce(&mut d, 8);
    assert_eq!(d.hazptr(1), HazPtr { ptr: 8, active: true });
}
