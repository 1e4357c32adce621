use hazptr::model::DomainView;
use hazptr::{Deleter, Disposer, Domains, HazPtrDomain, HazPtrHolder, Retired};

struct Nop;

impl Deleter for Nop {
    fn delete(&self, _ptr: usize) {}
}

fn at(ptr: usize) -> Retired {
    Retired { data_ptr: ptr, deleter: &Nop }
}

fn domain() -> HazPtrDomain<()> {
    HazPtrDomain::new(Domains::new().number().unwrap())
}

/// Deletes objects at once. Deleting the object at an address may retire others, at a given time.
struct Family {
    children: Vec<(usize, Vec<usize>)>,
    now: u64,
    deleted: Vec<usize>,
}

impl Family {
    fn new(children: Vec<(usize, Vec<usize>)>, now: u64) -> Self {
        Family { children, now, deleted: Vec::new() }
    }
}

// The first five items matter to proofs only, and are never called.
impl Disposer<()> for Family {
    type State = ();

    fn state(&self) {}

    fn remembers(_: (), _: DomainView, _: Retired) {}

    fn leaves(_: (), d: DomainView, _: Retired) -> DomainView {
        d
    }

    fn patience(_: ()) -> usize {
        0
    }

    fn lemma_patience(_: (), _: DomainView, _: Retired) {}

    fn dispose(&mut self, domain: &mut HazPtrDomain<()>, obj: Retired) {
        self.deleted.push(obj.data_ptr);
        let all: Vec<usize> = self
            .children
            .iter()
            .filter(|(parent, _)| *parent == obj.data_ptr)
            .flat_map(|(_, children)| children.clone())
            .collect();
        let now = self.now;
        for child in all {
            domain.retire(at(child), now, self);
        }
    }
}

#[test]
fn a_transitive_call_sweeps_what_deleters_retire() {
    let mut d = domain();
    let mut family = Family::new(vec![(8, vec![16])], 0);
    d.retire(at(8), 0, &mut family);
    assert_eq!(d.eager_reclaim(false, &mut family), 2);
    assert_eq!(family.deleted, vec![8, 16]);
    assert_eq!((d.retired_len(), d.retired_count()), (0, 0));
    assert_eq!(d.nbulk_reclaims(), 0);
}

#[test]
fn a_single_pass_leaves_what_deleters_retire() {
    let mut d = domain();
    let mut family = Family::new(vec![(8, vec![16])], 0);
    d.retire(at(8), 0, &mut family);
    assert_eq!(d.bulk_reclaim(false, &mut family), 1);
    assert_eq!(family.deleted, vec![8]);
    assert_eq!((d.retired_len(), d.retired_count()), (1, 1));
    assert_eq!(d.bulk_reclaim(false, &mut family), 1);
    assert_eq!(family.deleted, vec![8, 16]);
    assert_eq!((d.retired_len(), d.retired_count()), (0, 0));
}

#[test]
fn generations_are_swept_until_only_guarded_objects_are_left() {
    let mut d = domain();
    let mut family = Family::new(
        vec![(8, vec![16, 24]), (16, vec![32]), (24, vec![]), (32, vec![40, 48])],
        0,
    );
    let mut h = HazPtrHolder::for_domain(&mut d);
    h.announce(&mut d, 40);
    d.retire(at(8), 0, &mut family);
    assert_eq!(d.eager_reclaim(false, &mut family), 5);
    assert_eq!(family.deleted, vec![8, 24, 16, 32, 48]);
    assert_eq!((d.retired_len(), d.retired_count()), (1, 1));
    h.reset(&mut d);
    assert_eq!(d.eager_reclaim(false, &mut family), 1);
    assert_eq!(family.deleted, vec![8, 24, 16, 32, 48, 40]);
}

#[test]
fn a_timed_cleanup_sweeps_what_deleters_retire() {
    let mut d = domain();
    let mut family = Family::new(vec![(8, vec![16])], 0);
    d.retire(at(8), 5, &mut family);
    assert_eq!(family.deleted, vec![8, 16]);
    assert_eq!((d.retired_len(), d.retired_count()), (0, 0));
    assert_eq!(d.sync_time(), 2_000_000_005);
}

#[test]
fn a_deleter_may_start_a_cleanup_of_its_own() {
    let mut d = domain();
    // The clock has moved on when the deleter retires: that cleans up in the middle of the pass.
    let mut family = Family::new(vec![(8, vec![16])], 7);
    d.retire(at(8), 0, &mut family);
    d.retire(at(24), 0, &mut family);
    assert_eq!(d.eager_reclaim(false, &mut family), 2);
    assert_eq!(family.deleted, vec![24, 8, 16]);
    assert_eq!((d.retired_len(), d.retired_count()), (0, 0));
    assert_eq!(d.sync_time(), 2_000_000_007);
    assert_eq!(d.nbulk_reclaims(), 0);
}

#[test]
fn many_retired_objects_sweep_once() {
    let mut d = domain();
    let mut family = Family::new(vec![(8, vec![9000])], 0);
    for i in 1..1001 {
        d.retire(at(8 * i), 0, &mut family);
    }
    // The pass disposes of a thousand objects, and what the last of them retires, while all of
    // them are still counted, starts a pass of its own.
    assert_eq!(family.deleted.len(), 1001);
    assert_eq!((d.retired_len(), d.retired_count()), (0, 0));
}

#[test]
fn a_domain_ends_with_its_objects_deleted() {
    let mut d = domain();
    let mut family = Family::new(Vec::new(), 0);
    for p in [8, 16] {
        d.retire(at(p), 0, &mut family);
    }
    assert_eq!(d.drop(&mut family), 2);
    assert_eq!(family.deleted, vec![16, 8]);
}

#[test]
fn deletion_can_be_put_off() {
    let mut d = domain();
    let mut due: Vec<Retired> = Vec::new();
    d.retire(at(8), 0, &mut due);
    due.dispose(&mut d, at(16));
    assert_eq!(d.eager_reclaim(true, &mut due), 1);
    assert_eq!(due.iter().map(|o| o.data_ptr).collect::<Vec<usize>>(), vec![16, 8]);
    assert_eq!(d.retired_len(), 0);
}
