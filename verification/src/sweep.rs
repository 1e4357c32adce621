//! What passes over the retired objects come to when objects are disposed of in their middle.
//!
//! [`model`](crate::model) says what a pass does while nobody interferes. Here the disposer of the
//! objects that are due may interfere after each of them.
use crate::deleter::Retired;
use crate::disposer::Disposer;
use crate::exact;
use crate::laws;
use crate::model;
use crate::model::DomainView;
use vstd::prelude::*;

verus! {

/// A domain, and what the disposer of its objects remembers.
#[verifier::ext_equal]
pub struct Swept<S> {
    pub state: S,
    pub domain: DomainView,
    /// How many objects the passes say that they have disposed of.
    pub reclaimed: usize,
}

/// What is left once objects were disposed of in order.
pub open spec fn disposed<F, D: Disposer<F>>(
    s: D::State,
    d: DomainView,
    objs: Seq<Retired>,
) -> (D::State, DomainView)
    decreases objs.len(),
{
    if objs.len() == 0 {
        (s, d)
    } else {
        let (s1, d1) = disposed::<F, D>(s, d, objs.drop_last());
        (D::remembers(s1, d1, objs.last()), D::leaves(s1, d1, objs.last()))
    }
}

/// What is left once stolen objects were looked up among the addresses: those that are due were
/// disposed of, topmost first, and then taken off the count, and the others were put back.
pub open spec fn looked_up<F, D: Disposer<F>>(
    s: D::State,
    d: DomainView,
    stolen: Seq<Retired>,
    addresses: Set<usize>,
) -> (D::State, DomainView) {
    let due = model::due_of(stolen, addresses);
    let (s1, d1) = disposed::<F, D>(s, d, due);
    (
        s1,
        DomainView {
            retired: d1.retired + model::kept_of(stolen, addresses),
            retired_count: d1.retired_count.wrapping_sub(due.len() as isize),
            ..d1
        },
    )
}

/// No object was retired while stolen ones were looked up.
pub open spec fn is_done<F, D: Disposer<F>>(
    s: D::State,
    d: DomainView,
    stolen: Seq<Retired>,
    addresses: Set<usize>,
) -> bool {
    disposed::<F, D>(s, d, model::due_of(stolen, addresses)).1.retired.len() == 0
}

/// What passes come to, so many objects having been disposed of by earlier ones.
pub open spec fn passes<F, D: Disposer<F>>(
    s: D::State,
    d: DomainView,
    transitive: bool,
    before: usize,
) -> Swept<D::State>
    decreases D::patience(s),
    via passes_decreases::<F, D>
{
    if d.retired.len() == 0 {
        Swept { state: s, domain: d, reclaimed: before }
    } else {
        let addresses = model::guarded(d.hazptrs);
        let d0 = DomainView { retired: Seq::empty(), ..d };
        let (s1, d1) = looked_up::<F, D>(s, d0, d.retired, addresses);
        let reclaimed = before.wrapping_add(d.pass_due().len() as usize);
        if is_done::<F, D>(s, d0, d.retired, addresses) || !transitive {
            Swept {
                state: s1,
                domain: DomainView { nbulk_reclaims: d1.nbulk_reclaims.wrapping_sub(1), ..d1 },
                reclaimed,
            }
        } else {
            passes::<F, D>(s1, d1, transitive, reclaimed)
        }
    }
}

#[via_fn]
proof fn passes_decreases<F, D: Disposer<F>>(
    s: D::State,
    d: DomainView,
    transitive: bool,
    before: usize,
) {
    let d0 = DomainView { retired: Seq::empty(), ..d };
    lemma_patience_all::<F, D>(s, d0, d.pass_due());
}

/// Objects are retired by disposing of others, but not for ever.
pub proof fn lemma_patience_all<F, D: Disposer<F>>(s: D::State, d: DomainView, objs: Seq<Retired>)
    ensures
        ({
            let (s1, d1) = disposed::<F, D>(s, d, objs);
            &&& D::patience(s1) <= D::patience(s)
            &&& d1.retired.len() > d.retired.len() ==> D::patience(s1) < D::patience(s)
        }),
    decreases objs.len(),
{
    if objs.len() > 0 {
        let (s1, d1) = disposed::<F, D>(s, d, objs.drop_last());
        lemma_patience_all::<F, D>(s, d, objs.drop_last());
        D::lemma_patience(s1, d1, objs.last());
    }
}

/// What a call for passes comes to.
pub open spec fn bulk<F, D: Disposer<F>>(s: D::State, d: DomainView, transitive: bool) -> Swept<
    D::State,
> {
    passes::<F, D>(
        s,
        DomainView { nbulk_reclaims: d.nbulk_reclaims.wrapping_add(1), ..d },
        transitive,
        0,
    )
}

/// What a cleanup at the time `now` comes to.
pub open spec fn cleanup<F, D: Disposer<F>>(s: D::State, d: DomainView, now: u64) -> Swept<
    D::State,
> {
    if d.is_timed(now) {
        bulk::<F, D>(s, d.after_sync(now), true)
    } else if model::threshold(d.retired_count, d.hazptr_count) {
        bulk::<F, D>(s, d, false)
    } else {
        Swept { state: s, domain: d, reclaimed: 0 }
    }
}

/// A disposer that puts deletion off takes objects in, and nothing else happens.
proof fn lemma_disposed_into<F>(s: Seq<Retired>, d: DomainView, objs: Seq<Retired>)
    ensures
        disposed::<F, Vec<Retired>>(s, d, objs) == (s + objs, d),
    decreases objs.len(),
{
    if objs.len() == 0 {
        assert(s + objs =~= s);
    } else {
        lemma_disposed_into::<F>(s, d, objs.drop_last());
        assert((s + objs.drop_last()).push(objs.last()) =~= s + objs);
    }
}

/// With deletion put off, passes come to a single undisturbed one, whose objects are all taken in.
pub proof fn law_put_off_pass<F>(s: Seq<Retired>, d: DomainView, transitive: bool)
    ensures
        ({
            let o = bulk::<F, Vec<Retired>>(s, d, transitive);
            &&& o.domain == d.after_bulk_reclaim()
            &&& o.state == s + d.pass_due()
            &&& o.reclaimed == d.pass_due().len() as usize
        }),
{
    let begun = DomainView { nbulk_reclaims: d.nbulk_reclaims.wrapping_add(1), ..d };
    let begun0 = DomainView { retired: Seq::empty(), ..begun };
    model::lemma_sort_top(d.retired, model::guarded(d.hazptrs));
    lemma_disposed_into::<F>(s, begun0, d.pass_due());
    assert(Seq::<Retired>::empty() + d.pass_kept() =~= d.pass_kept());
    if d.retired.len() == 0 {
        assert(s + d.pass_due() =~= s);
    }
}

/// With deletion put off, a cleanup comes to an undisturbed one, whose objects are all taken in.
pub proof fn law_put_off_cleanup<F>(s: Seq<Retired>, d: DomainView, now: u64)
    ensures
        ({
            let o = cleanup::<F, Vec<Retired>>(s, d, now);
            &&& o.domain == d.after_cleanup(now)
            &&& o.state == s + d.cleanup_due(now)
        }),
{
    law_put_off_pass::<F>(s, d.after_sync(now), true);
    law_put_off_pass::<F>(s, d, false);
    assert(s + Seq::<Retired>::empty() =~= s);
}

/// With deletion put off, a domain can be ended once every reader has given its hazard pointer up,
/// and then all the retired objects are taken in.
pub proof fn law_put_off_drop<F>(s: Seq<Retired>, d: DomainView)
    requires
        model::all_free(d.hazptrs),
    ensures
        ({
            let o = bulk::<F, Vec<Retired>>(s, d, false);
            &&& o.domain.retired.len() == 0
            &&& model::all_free(o.domain.hazptrs)
            &&& o.state == s + d.retired.reverse()
            &&& d.retired_count_exact() ==> o.reclaimed == d.retired_count
        }),
{
    law_put_off_pass::<F>(s, d, false);
    laws::law_free_pass_takes_all(d);
}

/// The disposer leaves the hazard pointers alone.
pub open spec fn leaves_hazptrs<F, D: Disposer<F>>() -> bool {
    forall|s: D::State, d: DomainView, obj: Retired|
        (#[trigger] D::leaves(s, d, obj)).hazptrs == d.hazptrs
}

proof fn lemma_disposed_hazptrs<F, D: Disposer<F>>(s: D::State, d: DomainView, objs: Seq<Retired>)
    requires
        leaves_hazptrs::<F, D>(),
    ensures
        disposed::<F, D>(s, d, objs).1.hazptrs == d.hazptrs,
    decreases objs.len(),
{
    if objs.len() > 0 {
        lemma_disposed_hazptrs::<F, D>(s, d, objs.drop_last());
    }
}

/// Whatever objects are retired by disposing of others: a transitive call leaves none but those
/// that an active hazard pointer guards, unless disposing of an object changes which those are.
pub proof fn law_transitive_leaves_guarded<F, D: Disposer<F>>(s: D::State, d: DomainView)
    requires
        leaves_hazptrs::<F, D>(),
    ensures
        ({
            let end = bulk::<F, D>(s, d, true).domain;
            &&& end.hazptrs == d.hazptrs
            &&& forall|i: int|
                0 <= i < end.retired.len() ==> model::guarded(end.hazptrs).contains(
                    (#[trigger] end.retired[i]).data_ptr,
                )
        }),
{
    let begun = DomainView { nbulk_reclaims: d.nbulk_reclaims.wrapping_add(1), ..d };
    lemma_passes_leave_guarded::<F, D>(s, begun, 0);
}

proof fn lemma_passes_leave_guarded<F, D: Disposer<F>>(
    s: D::State,
    d: DomainView,
    before: usize,
)
    requires
        leaves_hazptrs::<F, D>(),
    ensures
        ({
            let end = passes::<F, D>(s, d, true, before).domain;
            &&& end.hazptrs == d.hazptrs
            &&& forall|i: int|
                0 <= i < end.retired.len() ==> model::guarded(end.hazptrs).contains(
                    (#[trigger] end.retired[i]).data_ptr,
                )
        }),
    decreases D::patience(s),
{
    if d.retired.len() > 0 {
        let addresses = model::guarded(d.hazptrs);
        let d0 = DomainView { retired: Seq::empty(), ..d };
        let (s1, d1) = looked_up::<F, D>(s, d0, d.retired, addresses);
        lemma_disposed_hazptrs::<F, D>(s, d0, d.pass_due());
        lemma_patience_all::<F, D>(s, d0, d.pass_due());
        if is_done::<F, D>(s, d0, d.retired, addresses) {
            let kept = d.pass_kept();
            assert forall|i: int| 0 <= i < d1.retired.len() implies addresses.contains(
                (#[trigger] d1.retired[i]).data_ptr,
            ) by {
                assert(d1.retired[i] == kept[i]);
                assert(kept.contains(kept[i]));
                laws::lemma_sorted(d.retired, addresses, kept[i]);
            }
        } else {
            lemma_passes_leave_guarded::<F, D>(
                s1,
                d1,
                before.wrapping_add(d.pass_due().len() as usize),
            );
        }
    }
}

/// Disposing of objects in order is disposing of the first, and then, in what that leaves, of the
/// others.
pub proof fn law_disposed_one_by_one<F, D: Disposer<F>>(
    s: D::State,
    d: DomainView,
    obj: Retired,
    rest: Seq<Retired>,
)
    ensures
        disposed::<F, D>(s, d, Seq::empty()) == (s, d),
        disposed::<F, D>(s, d, seq![obj] + rest) == disposed::<F, D>(
            D::remembers(s, d, obj),
            D::leaves(s, d, obj),
            rest,
        ),
    decreases rest.len(),
{
    let objs = seq![obj] + rest;
    if rest.len() == 0 {
        assert(objs.drop_last() =~= Seq::<Retired>::empty());
        assert(objs.last() == obj);
        assert(rest =~= Seq::<Retired>::empty());
        assert(disposed::<F, D>(s, d, objs.drop_last()) == (s, d));
    } else {
        assert(objs.drop_last() =~= seq![obj] + rest.drop_last());
        assert(objs.last() == rest.last());
        law_disposed_one_by_one::<F, D>(s, d, obj, rest.drop_last());
    }
}

/// The disposer keeps a record of the objects that it is given: each is added to it.
pub open spec fn is_record<F, D: Disposer<F>>(record: spec_fn(D::State) -> Seq<Retired>) -> bool {
    forall|s: D::State, d: DomainView, obj: Retired|
        record(#[trigger] D::remembers(s, d, obj)) == record(s).push(obj)
}

/// Of a disposer that keeps a record: it is given just the objects that are to be disposed of, each
/// once and in order, whatever disposing of the earlier ones does.
pub proof fn law_disposed_is_recorded<F, D: Disposer<F>>(
    s: D::State,
    d: DomainView,
    objs: Seq<Retired>,
    record: spec_fn(D::State) -> Seq<Retired>,
)
    requires
        is_record::<F, D>(record),
    ensures
        record(disposed::<F, D>(s, d, objs).0) == record(s) + objs,
    decreases objs.len(),
{
    if objs.len() == 0 {
        assert(record(s) + objs =~= record(s));
    } else {
        law_disposed_is_recorded::<F, D>(s, d, objs.drop_last(), record);
        assert((record(s) + objs.drop_last()).push(objs.last()) =~= record(s) + objs);
    }
}

/// Looking stolen objects up gives the disposer exactly those whose address is not among the given
/// ones, topmost first and each once, whatever disposing of the earlier ones retires. Afterwards the
/// others lie on top of what was retired meanwhile.
#[verifier::spinoff_prover]
pub proof fn law_lookup_disposes_of_what_is_off<F, D: Disposer<F>>(
    s: D::State,
    d: DomainView,
    stolen: Seq<Retired>,
    addresses: Set<usize>,
    record: spec_fn(D::State) -> Seq<Retired>,
)
    requires
        is_record::<F, D>(record),
    ensures
        ({
            let (s1, d1) = looked_up::<F, D>(s, d, stolen, addresses);
            let given = record(s1).skip(record(s).len() as int);
            let left = disposed::<F, D>(s, d, given).1;
            &&& record(s1) == record(s) + given
            &&& exists|at: Seq<int>|
                exact::is_picked(given, stolen, at, exact::not_among(addresses))
            &&& d1.retired.len() == left.retired.len() + stolen.len() - given.len()
            &&& d1.retired.take(left.retired.len() as int) == left.retired
            &&& exists|at: Seq<int>|
                exact::is_picked(
                    d1.retired.skip(left.retired.len() as int),
                    stolen,
                    at,
                    exact::among(addresses),
                )
            &&& s1 == disposed::<F, D>(s, d, given).0
            &&& given.len() <= isize::MAX && left.retired_count - given.len() >= isize::MIN
                ==> d1.retired_count == left.retired_count - given.len()
            &&& d1.id == left.id
            &&& d1.hazptrs == left.hazptrs && d1.hazptr_count == left.hazptr_count
            &&& d1.sync_time == left.sync_time && d1.nbulk_reclaims == left.nbulk_reclaims
        }),
{
    let due = model::due_of(stolen, addresses);
    let kept = model::kept_of(stolen, addresses);
    let (s1, d1) = looked_up::<F, D>(s, d, stolen, addresses);
    let left = disposed::<F, D>(s, d, due).1;
    law_disposed_is_recorded::<F, D>(s, d, due, record);
    let given = record(s1).skip(record(s).len() as int);
    assert(record(s1) == record(s) + due);
    assert(given =~= due);
    exact::law_sorted_by_address(stolen, addresses);
    model::lemma_sort_top(stolen, addresses);
    assert(d1.retired == left.retired + kept);
    assert(d1.retired.take(left.retired.len() as int) =~= left.retired);
    assert(d1.retired.skip(left.retired.len() as int) =~= kept);
    let off = choose|at: Seq<int>|
        exact::is_picked(due, stolen, at, exact::not_among(addresses));
    assert(exact::is_picked(given, stolen, off, exact::not_among(addresses)));
    let on = choose|at: Seq<int>| exact::is_picked(kept, stolen, at, exact::among(addresses));
    assert(exact::is_picked(
        d1.retired.skip(left.retired.len() as int),
        stolen,
        on,
        exact::among(addresses),
    ));
}

/// A call for passes over a domain without retired objects does nothing but count itself in.
/// Otherwise it begins with the objects that no active hazard pointer announces, topmost first and
/// each once; a call that is not transitive ends with them.
pub proof fn law_bulk_disposes_of_what_is_unannounced<F, D: Disposer<F>>(
    s: D::State,
    d: DomainView,
    transitive: bool,
    record: spec_fn(D::State) -> Seq<Retired>,
)
    requires
        is_record::<F, D>(record),
    ensures
        ({
            let o = bulk::<F, D>(s, d, transitive);
            let given = record(o.state).skip(record(s).len() as int);
            &&& record(o.state) == record(s) + given
            &&& d.retired.len() == 0 ==> {
                &&& o.state == s
                &&& o.reclaimed == 0
                &&& o.domain.retired.len() == 0
                &&& o.domain.retired_count == d.retired_count
                &&& o.domain.hazptrs == d.hazptrs
            }
            &&& exists|n: int, at: Seq<int>|
                0 <= n <= given.len() && #[trigger] exact::is_picked(
                    given.take(n),
                    d.retired,
                    at,
                    exact::unannounced(d.hazptrs),
                ) && (!transitive ==> n == given.len())
            &&& given.len() <= usize::MAX ==> o.reclaimed == given.len()
        }),
{
    let begun = DomainView { nbulk_reclaims: d.nbulk_reclaims.wrapping_add(1), ..d };
    let o = bulk::<F, D>(s, d, transitive);
    lemma_passes_recorded::<F, D>(s, begun, transitive, 0, record);
    exact::law_pass_is_exact(d);
    model::lemma_sort_top(d.retired, model::guarded(d.hazptrs));
    let due = d.pass_due();
    let given = record(o.state).skip(record(s).len() as int);
    let at = choose|at: Seq<int>|
        exact::is_picked(due, d.retired, at, exact::unannounced(d.hazptrs));
    assert(given.take(due.len() as int) =~= due);
    assert(exact::is_picked(
        given.take(due.len() as int),
        d.retired,
        at,
        exact::unannounced(d.hazptrs),
    ));
    if d.retired.len() == 0 {
        assert(record(s) + given =~= record(s));
    }
}

#[verifier::spinoff_prover]
#[verifier::rlimit(50)]
proof fn lemma_passes_recorded<F, D: Disposer<F>>(
    s: D::State,
    d: DomainView,
    transitive: bool,
    before: usize,
    record: spec_fn(D::State) -> Seq<Retired>,
)
    requires
        is_record::<F, D>(record),
    ensures
        ({
            let o = passes::<F, D>(s, d, transitive, before);
            let given = record(o.state).skip(record(s).len() as int);
            let due = d.pass_due();
            &&& record(s).len() + due.len() <= record(o.state).len()
            &&& record(o.state) == record(s) + given
            &&& given.take(due.len() as int) == due
            &&& !transitive ==> given.len() == due.len()
            &&& before + given.len() <= usize::MAX ==> o.reclaimed == before + given.len()
        }),
    decreases D::patience(s),
{
    let o = passes::<F, D>(s, d, transitive, before);
    let due = d.pass_due();
    let given = record(o.state).skip(record(s).len() as int);
    model::lemma_sort_top(d.retired, model::guarded(d.hazptrs));
    if d.retired.len() == 0 {
        assert(record(s) =~= record(s) + given);
        assert(given.take(0) =~= due);
    } else {
        let d0 = DomainView { retired: Seq::empty(), ..d };
        let (s1, d1) = looked_up::<F, D>(s, d0, d.retired, model::guarded(d.hazptrs));
        law_disposed_is_recorded::<F, D>(s, d0, due, record);
        lemma_patience_all::<F, D>(s, d0, due);
        assert(record(s1) == record(s) + due);
        if is_done::<F, D>(s, d0, d.retired, model::guarded(d.hazptrs)) || !transitive {
            assert(o.state == s1);
            assert(given =~= due);
            assert(given.take(due.len() as int) =~= due);
        } else {
            let next = before.wrapping_add(due.len() as usize);
            lemma_passes_recorded::<F, D>(s1, d1, transitive, next, record);
            let more = record(o.state).skip(record(s1).len() as int);
            assert(o == passes::<F, D>(s1, d1, transitive, next));
            assert(record(o.state) =~= record(s) + (due + more));
            assert(given =~= due + more);
            assert(given.take(due.len() as int) =~= due);
        }
    }
}

/// `born` tells all the objects that have come to be retired by disposing of others so far, and none
/// goes missing by that.
pub open spec fn is_birth<F, D: Disposer<F>>(born: spec_fn(D::State) -> Seq<Retired>) -> bool {
    forall|s: D::State, d: DomainView, obj: Retired|
        {
            let s1 = #[trigger] D::remembers(s, d, obj);
            let d1 = D::leaves(s, d, obj);
            &&& born(s1).to_multiset().add(d.retired.to_multiset()) =~= born(s).to_multiset().add(
                d1.retired.to_multiset(),
            )
        }
}

/// Whatever is retired by disposing of other objects: a call for passes loses no object and makes
/// none up. What was retired before, or has been since, was either given to the disposer or is still
/// retired.
pub proof fn law_bulk_loses_nothing<F, D: Disposer<F>>(
    s: D::State,
    d: DomainView,
    transitive: bool,
    record: spec_fn(D::State) -> Seq<Retired>,
    born: spec_fn(D::State) -> Seq<Retired>,
)
    requires
        is_record::<F, D>(record),
        is_birth::<F, D>(born),
    ensures
        ({
            let o = bulk::<F, D>(s, d, transitive);
            record(o.state).to_multiset().add(o.domain.retired.to_multiset()).add(
                born(s).to_multiset(),
            ) =~= record(s).to_multiset().add(d.retired.to_multiset()).add(
                born(o.state).to_multiset(),
            )
        }),
{
    let begun = DomainView { nbulk_reclaims: d.nbulk_reclaims.wrapping_add(1), ..d };
    lemma_passes_lose_nothing::<F, D>(s, begun, transitive, 0, record, born);
}

proof fn lemma_disposed_births<F, D: Disposer<F>>(
    s: D::State,
    d: DomainView,
    objs: Seq<Retired>,
    born: spec_fn(D::State) -> Seq<Retired>,
)
    requires
        is_birth::<F, D>(born),
    ensures
        ({
            let (s1, d1) = disposed::<F, D>(s, d, objs);
            born(s1).to_multiset().add(d.retired.to_multiset()) =~= born(s).to_multiset().add(
                d1.retired.to_multiset(),
            )
        }),
    decreases objs.len(),
{
    if objs.len() > 0 {
        let (s1, d1) = disposed::<F, D>(s, d, objs.drop_last());
        lemma_disposed_births::<F, D>(s, d, objs.drop_last(), born);
        let s2 = D::remembers(s1, d1, objs.last());
        let d2 = D::leaves(s1, d1, objs.last());
        let a = born(s1).to_multiset();
        let b = born(s2).to_multiset();
        assert(b.add(d1.retired.to_multiset()) =~= a.add(d2.retired.to_multiset()));
        assert forall|o: Retired|
            #[trigger] b.add(d.retired.to_multiset()).count(o) == born(s).to_multiset().add(
                d2.retired.to_multiset(),
            ).count(o) by {
            assert(b.add(d1.retired.to_multiset()).count(o) == a.add(
                d2.retired.to_multiset(),
            ).count(o));
            assert(a.add(d.retired.to_multiset()).count(o) == born(s).to_multiset().add(
                d1.retired.to_multiset(),
            ).count(o));
        }
    }
}

#[verifier::spinoff_prover]
proof fn lemma_passes_lose_nothing<F, D: Disposer<F>>(
    s: D::State,
    d: DomainView,
    transitive: bool,
    before: usize,
    record: spec_fn(D::State) -> Seq<Retired>,
    born: spec_fn(D::State) -> Seq<Retired>,
)
    requires
        is_record::<F, D>(record),
        is_birth::<F, D>(born),
    ensures
        ({
            let o = passes::<F, D>(s, d, transitive, before);
            record(o.state).to_multiset().add(o.domain.retired.to_multiset()).add(
                born(s).to_multiset(),
            ) =~= record(s).to_multiset().add(d.retired.to_multiset()).add(
                born(o.state).to_multiset(),
            )
        }),
    decreases D::patience(s),
{
    if d.retired.len() > 0 {
        let addresses = model::guarded(d.hazptrs);
        let due = d.pass_due();
        let kept = d.pass_kept();
        let d0 = DomainView { retired: Seq::empty(), ..d };
        let (s1, dd) = disposed::<F, D>(s, d0, due);
        let (s2, d1) = looked_up::<F, D>(s, d0, d.retired, addresses);
        law_disposed_is_recorded::<F, D>(s, d0, due, record);
        lemma_disposed_births::<F, D>(s, d0, due, born);
        lemma_patience_all::<F, D>(s, d0, due);
        laws::law_pass_loses_nothing(d);
        vstd::seq_lib::lemma_multiset_commutative(record(s), due);
        vstd::seq_lib::lemma_multiset_commutative(dd.retired, kept);
        let r0 = record(s).to_multiset();
        let r1 = record(s1).to_multiset();
        let b0 = born(s).to_multiset();
        let b1 = born(s1).to_multiset();
        let t0 = d.retired.to_multiset();
        let t1 = d1.retired.to_multiset();
        lemma_empty_multiset();
        assert forall|o: Retired|
            #[trigger] r1.add(t1).add(b0).count(o) == r0.add(t0).add(b1).count(o) by {
            assert(due.to_multiset().add(kept.to_multiset()).count(o) == t0.count(o));
            assert(b1.add(d0.retired.to_multiset()).count(o) == b0.add(
                dd.retired.to_multiset(),
            ).count(o));
        }
        if !(is_done::<F, D>(s, d0, d.retired, addresses) || !transitive) {
            let next = before.wrapping_add(due.len() as usize);
            lemma_passes_lose_nothing::<F, D>(s2, d1, transitive, next, record, born);
            let o = passes::<F, D>(s, d, transitive, before);
            let r2 = record(o.state).to_multiset();
            let t2 = o.domain.retired.to_multiset();
            let b2 = born(o.state).to_multiset();
            assert forall|x: Retired|
                #[trigger] r2.add(t2).add(b0).count(x) == r0.add(t0).add(b2).count(x) by {
                assert(r1.add(t1).add(b0).count(x) == r0.add(t0).add(b1).count(x));
                assert(r2.add(t2).add(b1).count(x) == r1.add(t1).add(b2).count(x));
            }
        }
    }
}

proof fn lemma_empty_multiset()
    ensures
        Seq::<Retired>::empty().to_multiset() =~= vstd::multiset::Multiset::<Retired>::empty(),
{
    broadcast use vstd::seq_lib::group_to_multiset_ensures;
    broadcast use vstd::multiset::group_multiset_axioms;

}

/// A call for passes counts itself in and then makes them.
pub proof fn law_bulk_is_counted_in<F, D: Disposer<F>>(s: D::State, d: DomainView, transitive: bool)
    requires
        d.nbulk_reclaims < usize::MAX,
    ensures
        bulk::<F, D>(s, d, transitive) == passes::<F, D>(
            s,
            DomainView { nbulk_reclaims: (d.nbulk_reclaims + 1) as usize, ..d },
            transitive,
            0,
        ),
{
}

/// A pass after which another follows is just like a call for passes that begins where it ends:
/// what the passes before have done matters only to the number that is returned.
pub proof fn law_pass_by_pass<F, D: Disposer<F>>(
    s: D::State,
    d: DomainView,
    transitive: bool,
    before: usize,
)
    requires
        d.retired.len() > 0,
    ensures
        ({
            let o = passes::<F, D>(s, d, transitive, before);
            let (s1, d1) = disposed::<F, D>(
                s,
                DomainView { retired: Seq::empty(), ..d },
                d.pass_due(),
            );
            let d2 = DomainView {
                retired: d1.retired + d.pass_kept(),
                retired_count: d1.retired_count.wrapping_sub(d.pass_due().len() as isize),
                ..d1
            };
            let n = before.wrapping_add(d.pass_due().len() as usize);
            &&& d1.retired.len() == 0 || !transitive ==> {
                &&& o.state == s1
                &&& o.domain == (DomainView {
                    nbulk_reclaims: d1.nbulk_reclaims.wrapping_sub(1),
                    ..d2
                })
                &&& o.reclaimed == n
            }
            &&& d1.retired.len() > 0 && transitive ==> o == passes::<F, D>(s1, d2, transitive, n)
        }),
{
}

/// A cleanup is a transitive call for passes if the time of the next timed one has passed, which it
/// moves on by two seconds; or else a single pass if at least a thousand objects are counted as
/// retired, and at least twice as many as hazard pointers; or else nothing. This is so for every
/// disposer.
pub proof fn law_cleanup_is_by_time_or_numbers<F, D: Disposer<F>>(
    s: D::State,
    d: DomainView,
    now: u64,
)
    ensures
        ({
            let o = cleanup::<F, D>(s, d, now);
            let enough = d.retired_count >= 1000 && d.retired_count >= 2 * d.hazptr_count;
            &&& now > d.sync_time && now + 2_000_000_000 <= u64::MAX ==> o == bulk::<F, D>(
                s,
                DomainView { sync_time: (now + 2_000_000_000) as u64, ..d },
                true,
            )
            &&& now <= d.sync_time && enough ==> o == bulk::<F, D>(s, d, false)
            &&& now <= d.sync_time && !enough ==> o.state == s && o.domain == d
        }),
{
}

/// Whatever is retired by disposing of other objects, as long as the hazard pointers are left alone:
/// a timed cleanup leaves no retired object but those that an active hazard pointer announces.
pub proof fn law_timed_cleanup_leaves_guarded<F, D: Disposer<F>>(
    s: D::State,
    d: DomainView,
    now: u64,
    i: int,
)
    requires
        leaves_hazptrs::<F, D>(),
        now > d.sync_time,
        0 <= i < cleanup::<F, D>(s, d, now).domain.retired.len(),
    ensures
        exact::announced(d.hazptrs)(cleanup::<F, D>(s, d, now).domain.retired[i].data_ptr),
{
    law_transitive_leaves_guarded::<F, D>(s, d.after_sync(now));
}

} // verus!
