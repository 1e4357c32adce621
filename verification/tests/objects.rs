use hazptr::{
    Deleter, DomainId, Domains, HazPtrDomain, HazPtrObject, HazPtrObjectWrapper, Reclaim, Retired,
};
use std::sync::atomic::{AtomicUsize, Ordering};

/// A deleter that remembers the sum of the addresses that it was given.
struct Sum {
    total: AtomicUsize,
}

impl Deleter for Sum {
    fn delete(&self, ptr: usize) {
        self.total.fetch_add(ptr, Ordering::SeqCst);
    }
}

#[test]
fn a_wrapper_belongs_to_the_shared_domain() {
    let w = HazPtrObjectWrapper::with_default_domain(5);
    assert_eq!(*w, 5);
    assert_eq!(w.domain(), DomainId::Shared);
    assert_eq!(w.domain(), HazPtrDomain::shared(&mut Domains::new()).id());
}

#[test]
fn a_wrapper_belongs_to_its_domain() {
    let d: HazPtrDomain<()> = HazPtrDomain::new(Domains::new().number().unwrap());
    let mut w = HazPtrObjectWrapper::with_domain(&d, String::from("a"));
    assert_eq!(w.domain(), DomainId::Own(0));
    assert_eq!(w.len(), 1);
    w.push('b');
    assert_eq!(*w, "ab");
    assert_eq!(w.domain(), d.id());
}

#[test]
fn an_object_is_retired_in_its_domain() {
    let mut d: HazPtrDomain<()> = HazPtrDomain::new(Domains::new().number().unwrap());
    let mut due = Vec::new();
    let sum: &'static Sum = Box::leak(Box::new(Sum { total: AtomicUsize::new(0) }));
    let w = HazPtrObjectWrapper::with_domain(&d, 5);
    w.retire(Retired { data_ptr: 8, deleter: sum }, &mut d, 0, &mut due);
    assert_eq!(d.retired_len(), 1);
    assert_eq!(due.len(), 0);
    w.retire(Retired { data_ptr: 16, deleter: sum }, &mut d, 1, &mut due);
    assert_eq!(d.retired_len(), 0);
    assert_eq!(due.len(), 2);
    assert_eq!(sum.total.load(Ordering::SeqCst), 0);
    for r in due {
        r.deleter.delete(r.data_ptr);
    }
    assert_eq!(sum.total.load(Ordering::SeqCst), 24);
}

fn is_reclaimable<T: Reclaim>(_t: &T) -> bool {
    true
}

#[test]
fn everything_is_reclaimable() {
    assert!(is_reclaimable(&5));
    assert!(is_reclaimable(&String::new()));
}
