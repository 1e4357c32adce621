use hazptr::{
    Deleter, DomainId, Domains, HazPtr, HazPtrDomain, HazPtrHolder, HazPtrObjectWrapper, Retired,
};
use std::sync::atomic::{AtomicUsize, Ordering};

struct Nop;

impl Deleter for Nop {
    fn delete(&self, _ptr: usize) {}
}

fn at(ptr: usize) -> Retired {
    Retired { data_ptr: ptr, deleter: &Nop }
}

fn domain() -> HazPtrDomain<()> {
    two_domains().0
}

/// Two domains of one program.
fn two_domains() -> (HazPtrDomain<()>, HazPtrDomain<()>) {
    let mut all = Domains::new();
    let mut make = || HazPtrDomain::new(all.number().unwrap());
    (make(), make())
}

#[test]
fn a_hazard_pointer_announces_and_resets() {
    let mut h = HazPtr::new();
    assert_eq!(h, HazPtr { ptr: 0, active: true });
    h.protect(8);
    assert_eq!(h, HazPtr { ptr: 8, active: true });
    h.reset();
    assert_eq!(h, HazPtr { ptr: 0, active: true });
}

#[test]
fn a_hazard_pointer_has_one_owner() {
    let mut h = HazPtr::new();
    assert!(!h.try_acquire());
    h.protect(8);
    h.release();
    assert_eq!(h, HazPtr { ptr: 8, active: false });
    assert!(h.try_acquire());
    assert!(!h.try_acquire());
    assert_eq!(h, HazPtr { ptr: 8, active: true });
}

#[test]
fn holders_of_one_domain_hold_different_hazard_pointers() {
    let mut d = domain();
    let h = HazPtrHolder::for_domain(&mut d);
    let k = HazPtrHolder::for_domain(&mut d);
    assert_eq!((h.slot(), k.slot()), (0, 1));
    assert_eq!(h.domain(), DomainId::Own(0));
    h.drop(&mut d);
    let l = HazPtrHolder::for_domain(&mut d);
    assert_eq!(l.slot(), 0);
    assert_eq!(d.hazptrs_len(), 2);
}

#[test]
fn a_holder_knows_its_domain() {
    let (mut d, mut e) = two_domains();
    let h = HazPtrHolder::for_domain(&mut d);
    HazPtrHolder::for_domain(&mut e);
    assert!(h.is_for(&d));
    assert!(!h.is_for(&e));
    assert!(!h.is_for(&domain()));
}

#[test]
fn a_source_that_stays_is_protected() {
    let mut d = domain();
    let mut h = HazPtrHolder::for_domain(&mut d);
    let src = AtomicUsize::new(8);
    assert_eq!(h.try_protect(&mut d, 8, &src), Ok(Some(8)));
    assert_eq!(d.hazptr(0), HazPtr { ptr: 8, active: true });
    assert_eq!(h.protect(&mut d, &src, 3), Ok(Some(8)));
    assert_eq!(d.hazptr(0), HazPtr { ptr: 8, active: true });
}

#[test]
fn a_source_that_changed_is_not_protected() {
    let mut d = domain();
    let mut h = HazPtrHolder::for_domain(&mut d);
    let src = AtomicUsize::new(16);
    assert_eq!(h.try_protect(&mut d, 8, &src), Err(16));
    assert_eq!(d.hazptr(0), HazPtr { ptr: 0, active: true });
    assert_eq!(h.try_protect(&mut d, 16, &src), Ok(Some(16)));
    assert_eq!(d.hazptr(0), HazPtr { ptr: 16, active: true });
}

#[test]
fn a_null_source_protects_nothing() {
    let mut d = domain();
    let mut h = HazPtrHolder::for_domain(&mut d);
    let src = AtomicUsize::new(0);
    assert_eq!(h.try_protect(&mut d, 0, &src), Ok(None));
    assert_eq!(h.protect(&mut d, &src, 1), Ok(None));
    assert_eq!(d.hazptr(0), HazPtr { ptr: 0, active: true });
}

#[test]
fn no_attempt_protects_nothing() {
    let mut d = domain();
    let mut h = HazPtrHolder::for_domain(&mut d);
    let src = AtomicUsize::new(8);
    h.announce(&mut d, 24);
    assert_eq!(h.protect(&mut d, &src, 0), Err(8));
    assert_eq!(d.hazptr(0), HazPtr { ptr: 24, active: true });
}

#[test]
fn validating_an_announcement() {
    let mut d = domain();
    let mut h = HazPtrHolder::for_domain(&mut d);
    h.announce(&mut d, 8);
    assert_eq!(h.validate(&mut d, 8, 8), Ok(Some(8)));
    assert_eq!(d.hazptr(0).ptr, 8);
    assert_eq!(h.validate(&mut d, 8, 16), Err(16));
    assert_eq!(d.hazptr(0).ptr, 0);
    assert_eq!(h.validate(&mut d, 0, 0), Ok(None));
    assert_eq!(h.validate(&mut d, 8, 0), Err(0));
}

#[test]
fn a_holder_resets_and_gives_up() {
    let mut d = domain();
    let mut h = HazPtrHolder::for_domain(&mut d);
    h.announce(&mut d, 8);
    h.reset(&mut d);
    assert_eq!(d.hazptr(0), HazPtr { ptr: 0, active: true });
    h.announce(&mut d, 8);
    h.drop(&mut d);
    assert_eq!(d.hazptr(0), HazPtr { ptr: 0, active: false });
}

#[test]
fn a_writer_waits_for_the_reader() {
    // The reader protects what the source points to, the writer swaps the source and retires the
    // old object, and only when the reader is done with it is the object due.
    let mut d = domain();
    let mut due = Vec::new();
    let src = AtomicUsize::new(8);
    let mut h = HazPtrHolder::for_domain(&mut d);
    assert_eq!(h.protect(&mut d, &src, 1), Ok(Some(8)));
    let old = src.swap(16, Ordering::SeqCst);
    d.retire(at(old), 1, &mut due);
    assert_eq!(due.len(), 0);
    assert_eq!(d.eager_reclaim(true, &mut due), 0);
    h.drop(&mut d);
    assert_eq!(d.eager_reclaim(true, &mut due), 1);
    assert_eq!(due[0].data_ptr, 8);
}

#[test]
fn reads_that_repeat_protect() {
    let mut d = domain();
    let mut h = HazPtrHolder::for_domain(&mut d);
    assert_eq!(h.protect_reads(&mut d, 8, &vec![8, 16]), Ok(Some(8)));
    assert_eq!(d.hazptr(0), HazPtr { ptr: 8, active: true });
    assert_eq!(h.protect_reads(&mut d, 8, &vec![16, 24, 24, 24, 8]), Ok(Some(24)));
    assert_eq!(d.hazptr(0), HazPtr { ptr: 24, active: true });
    // What was there before comes again, but not in a row.
    assert_eq!(h.protect_reads(&mut d, 8, &vec![16, 8, 16, 16]), Ok(Some(16)));
    assert_eq!(d.hazptr(0), HazPtr { ptr: 16, active: true });
}

#[test]
fn reads_that_repeat_null_protect_nothing() {
    let mut d = domain();
    let mut h = HazPtrHolder::for_domain(&mut d);
    assert_eq!(h.protect_reads(&mut d, 8, &vec![0, 0]), Ok(None));
    assert_eq!(d.hazptr(0), HazPtr { ptr: 0, active: true });
}

#[test]
fn reads_that_do_not_repeat_protect_nothing() {
    let mut d = domain();
    let mut h = HazPtrHolder::for_domain(&mut d);
    assert_eq!(h.protect_reads(&mut d, 8, &vec![16, 8, 24]), Err(24));
    assert_eq!(d.hazptr(0), HazPtr { ptr: 0, active: true });
    h.announce(&mut d, 32);
    assert_eq!(h.protect_reads(&mut d, 8, &Vec::new()), Err(8));
    assert_eq!(d.hazptr(0), HazPtr { ptr: 32, active: true });
}

#[test]
fn an_attempt_announces_what_was_read_last() {
    let mut d = domain();
    let mut h = HazPtrHolder::for_domain(&mut d);
    let a = h.begin(&mut d, 8);
    assert_eq!(d.hazptr(0), HazPtr { ptr: 8, active: true });
    let a = h.go_on(&mut d, a, 16).err().unwrap();
    assert_eq!(d.hazptr(0), HazPtr { ptr: 16, active: true });
    let a = h.go_on(&mut d, a, 8).err().unwrap();
    assert_eq!(d.hazptr(0), HazPtr { ptr: 8, active: true });
    assert!(matches!(h.go_on(&mut d, a, 8), Ok(Some(8))));
    assert_eq!(d.hazptr(0), HazPtr { ptr: 8, active: true });
}

#[test]
fn an_attempt_that_is_given_up_protects_nothing() {
    let mut d = domain();
    let mut h = HazPtrHolder::for_domain(&mut d);
    let a = h.begin(&mut d, 8);
    let a = h.go_on(&mut d, a, 16).err().unwrap();
    assert_eq!(h.give_up(&mut d, a), 16);
    assert_eq!(d.hazptr(0), HazPtr { ptr: 0, active: true });
    let a = h.begin(&mut d, 0);
    assert!(matches!(h.go_on(&mut d, a, 0), Ok(None)));
}

#[test]
fn a_holder_accepts_objects_of_its_domain() {
    let (mut d, e) = two_domains();
    let h = HazPtrHolder::for_domain(&mut d);
    assert!(h.accepts(&HazPtrObjectWrapper::with_domain(&d, 1)));
    assert!(!h.accepts(&HazPtrObjectWrapper::with_domain(&e, 1)));
}
