//! What holds across calls: nothing parked is lost or duplicated, and
//! collections hand out callbacks only once no reader can still see them.

use vstd::prelude::*;
use vstd::multiset::Multiset;
use vstd::seq_lib::lemma_multiset_commutative;

use crate::deferred::Deferred;
use crate::epoch::{is_epoch, lemma_next_three_times, next};
use crate::global::{gathered, only_one_changed, parked_callable, Global};
use crate::local::Local;

verus! {

broadcast use vstd::multiset::group_multiset_axioms;

/// Every callback parked in `g`: those of epoch 0, then 1, then 2, each
/// participant by participant.
pub open spec fn pending<F: FnOnce()>(g: &Global<F>) -> Seq<Deferred<F>> {
    let ls = g.locals();
    gathered(ls, 0, ls.len()) + gathered(ls, 1, ls.len()) + gathered(ls, 2, ls.len())
}

proof fn lemma_gathered_after_emptying<F: FnOnce()>(
    before: Seq<Local<F>>,
    after: Seq<Local<F>>,
    k: int,
    e: int,
    n: nat,
)
    requires
        before.len() == after.len(),
        n <= before.len(),
        is_epoch(e),
        forall|i: int| 0 <= i < before.len() ==> (#[trigger] before[i]).emptied(&after[i], k),
    ensures
        gathered(after, e, n) == (if e == k { Seq::<Deferred<F>>::empty() } else { gathered(before, e, n) }),
    decreases n,
{
    if n > 0 {
        lemma_gathered_after_emptying(before, after, k, e, (n - 1) as nat);
        assert(before[n - 1].emptied(&after[n - 1], k));
        if e == k {
            assert(gathered(after, e, n) =~= Seq::<Deferred<F>>::empty());
        }
    }
}

proof fn lemma_gathered_none<F: FnOnce()>(ls: Seq<Local<F>>, e: int, n: nat)
    requires
        n <= ls.len(),
        forall|i: int| 0 <= i < ls.len() ==> (#[trigger] ls[i]).queue(e) == Seq::<Deferred<F>>::empty(),
    ensures
        gathered(ls, e, n) == Seq::<Deferred<F>>::empty(),
    decreases n,
{
    if n > 0 {
        lemma_gathered_none(ls, e, (n - 1) as nat);
        assert(gathered(ls, e, n) =~= Seq::<Deferred<F>>::empty());
    }
}

/// A collection that advances the epoch loses and duplicates nothing: each
/// callback parked before it is afterwards either still parked or among
/// those handed out, exactly as often as it was parked.
pub proof fn lemma_collect_conserves<F: FnOnce()>(before: Global<F>, after: Global<F>, out: Seq<Deferred<F>>)
    requires
        before.wf(),
        before.advanced(&after, out),
    ensures
        pending(&before).to_multiset() == pending(&after).to_multiset().add(out.to_multiset()),
{
    let b = before.locals();
    let a = after.locals();
    let n = b.len();
    let k = next(before.epoch());
    lemma_gathered_after_emptying(b, a, k, 0, n);
    lemma_gathered_after_emptying(b, a, k, 1, n);
    lemma_gathered_after_emptying(b, a, k, 2, n);
    let g0 = gathered(b, 0, n);
    let g1 = gathered(b, 1, n);
    let g2 = gathered(b, 2, n);
    let z = Seq::<Deferred<F>>::empty();
    lemma_multiset_commutative(g0 + g1, g2);
    lemma_multiset_commutative(g0, g1);
    if k == 0 {
        lemma_multiset_commutative(z + g1, g2);
        lemma_multiset_commutative(z, g1);
    } else if k == 1 {
        lemma_multiset_commutative(g0 + z, g2);
        lemma_multiset_commutative(g0, z);
    } else {
        lemma_multiset_commutative(g0 + g1, z);
        lemma_multiset_commutative(g0, g1);
    }
    assert(pending(&before).to_multiset() =~= pending(&after).to_multiset().add(out.to_multiset()));
}

/// Three collections that advance the epoch, with nothing parked in
/// between, hand out every callback that was parked: afterwards nothing is
/// pending, and any further collection hands out nothing.
pub proof fn lemma_three_collections_drain<F: FnOnce()>(
    g0: Global<F>,
    g1: Global<F>,
    g2: Global<F>,
    g3: Global<F>,
    g4: Global<F>,
    o1: Seq<Deferred<F>>,
    o2: Seq<Deferred<F>>,
    o3: Seq<Deferred<F>>,
    o4: Seq<Deferred<F>>,
)
    requires
        g0.wf(),
        g0.advanced(&g1, o1),
        g1.advanced(&g2, o2),
        g2.advanced(&g3, o3),
        g3.advanced(&g4, o4),
    ensures
        pending(&g3) == Seq::<Deferred<F>>::empty(),
        o4 == Seq::<Deferred<F>>::empty(),
{
    let e0 = g0.epoch();
    lemma_next_three_times(e0);
    let n = g0.locals().len();
    let l0 = g0.locals();
    let l1 = g1.locals();
    let l2 = g2.locals();
    let l3 = g3.locals();
    assert forall|i: int| 0 <= i < n implies {
        &&& (#[trigger] l3[i]).queue(0) == Seq::<Deferred<F>>::empty()
        &&& l3[i].queue(1) == Seq::<Deferred<F>>::empty()
        &&& l3[i].queue(2) == Seq::<Deferred<F>>::empty()
    } by {
        assert(l0[i].emptied(&l1[i], next(e0)));
        assert(l1[i].emptied(&l2[i], next(next(e0))));
        assert(l2[i].emptied(&l3[i], e0));
    }
    lemma_gathered_none(l3, 0, n);
    lemma_gathered_none(l3, 1, n);
    lemma_gathered_none(l3, 2, n);
    lemma_gathered_none(l3, next(e0), n);
    assert(pending(&g3) =~= Seq::<Deferred<F>>::empty());
}

proof fn lemma_gathered_member<F: FnOnce()>(ls: Seq<Local<F>>, e: int, n: nat, d: Deferred<F>)
    requires
        n <= ls.len(),
        gathered(ls, e, n).contains(d),
    ensures
        exists|i: int| 0 <= i < n && (#[trigger] ls[i]).queue(e).contains(d),
    decreases n,
{
    let prev = gathered(ls, e, (n - 1) as nat);
    let q = ls[n - 1].queue(e);
    let k = choose|k: int| 0 <= k < gathered(ls, e, n).len() && gathered(ls, e, n)[k] == d;
    if k < prev.len() {
        assert(prev[k] == d);
        lemma_gathered_member(ls, e, (n - 1) as nat, d);
    } else {
        assert(q[k - prev.len()] == d);
        assert(ls[n - 1].queue(e).contains(d));
    }
}

/// A collection hands out only callbacks that were parked under the epoch
/// two steps behind the one it started from, and only when every
/// participant inside a critical section entered it in the current epoch:
/// readers that might still hold what those callbacks release have left.
pub proof fn lemma_handed_out_two_behind<F: FnOnce()>(
    before: Global<F>,
    after: Global<F>,
    out: Seq<Deferred<F>>,
    d: Deferred<F>,
)
    requires
        before.wf(),
        !before.blocked(),
        before.advanced(&after, out),
        out.contains(d),
    ensures
        next(next(after.epoch())) == before.epoch(),
        exists|i: int|
            0 <= i < before.locals().len() && (#[trigger] before.locals()[i]).queue(after.epoch()).contains(d),
        forall|i: int|
            0 <= i < before.locals().len() && (#[trigger] before.locals()[i]).active() > 0
                ==> before.locals()[i].epoch() == before.epoch(),
{
    lemma_next_three_times(before.epoch());
    lemma_gathered_member(before.locals(), after.epoch(), before.locals().len(), d);
    assert forall|i: int|
        0 <= i < before.locals().len() && (#[trigger] before.locals()[i]).active() > 0
            implies before.locals()[i].epoch() == before.epoch() by {
        assert(!before.locals()[i].lags(before.epoch()));
    }
}

proof fn lemma_gathered_same_prefix<F: FnOnce()>(a: Seq<Local<F>>, b: Seq<Local<F>>, e: int, n: nat)
    requires
        n <= a.len(),
        n <= b.len(),
        forall|j: int| 0 <= j < n ==> a[j] == b[j],
    ensures
        gathered(a, e, n) == gathered(b, e, n),
    decreases n,
{
    if n > 0 {
        lemma_gathered_same_prefix(a, b, e, (n - 1) as nat);
    }
}

proof fn lemma_swap_add<A>(p: Multiset<A>, s: Multiset<A>, t: Multiset<A>)
    ensures
        p.add(s).add(t) == p.add(t).add(s),
{
    assert forall|v: A| p.add(s).add(t).count(v) == p.add(t).add(s).count(v) by {
        assert(p.add(s).add(t).count(v) == p.add(s).count(v) + t.count(v));
        assert(p.add(s).count(v) == p.count(v) + s.count(v));
        assert(p.add(t).add(s).count(v) == p.add(t).count(v) + s.count(v));
        assert(p.add(t).count(v) == p.count(v) + t.count(v));
    }
    assert(p.add(s).add(t) =~= p.add(t).add(s));
}

proof fn lemma_gathered_update<F: FnOnce()>(b: Seq<Local<F>>, i: int, x: Local<F>, e: int, n: nat)
    requires
        0 <= i < n <= b.len(),
    ensures
        gathered(b.update(i, x), e, n).to_multiset().add(b[i].queue(e).to_multiset())
            == gathered(b, e, n).to_multiset().add(x.queue(e).to_multiset()),
    decreases n,
{
    let a = b.update(i, x);
    let m = (n - 1) as nat;
    let ga = gathered(a, e, m);
    let gb = gathered(b, e, m);
    let xq = x.queue(e).to_multiset();
    let bq = b[i].queue(e).to_multiset();
    let mq = b[m as int].queue(e).to_multiset();
    assert(gathered(a, e, n) == ga + a[m as int].queue(e));
    assert(gathered(b, e, n) == gb + b[m as int].queue(e));
    lemma_multiset_commutative(gb, b[m as int].queue(e));
    if m == i {
        lemma_gathered_same_prefix(a, b, e, m);
        lemma_multiset_commutative(ga, x.queue(e));
        lemma_swap_add(gb.to_multiset(), xq, bq);
    } else {
        lemma_gathered_update(b, i, x, e, m);
        assert(a[m as int] == b[m as int]);
        lemma_multiset_commutative(ga, b[m as int].queue(e));
        lemma_swap_add(ga.to_multiset(), mq, bq);
        lemma_swap_add(gb.to_multiset(), xq, mq);
    }
}

proof fn lemma_cancel<A>(x: Multiset<A>, y: Multiset<A>, q: Multiset<A>, extra: Multiset<A>)
    requires
        x.add(q) == y.add(q.add(extra)),
    ensures
        x == y.add(extra),
{
    assert forall|v: A| x.count(v) == y.add(extra).count(v) by {
        assert(x.add(q).count(v) == y.add(q.add(extra)).count(v));
        assert(x.add(q).count(v) == x.count(v) + q.count(v));
        assert(q.add(extra).count(v) == q.count(v) + extra.count(v));
        assert(y.add(q.add(extra)).count(v) == y.count(v) + q.add(extra).count(v));
        assert(y.add(extra).count(v) == y.count(v) + extra.count(v));
    }
    assert(x =~= y.add(extra));
}

/// Parking a callback adds exactly one pending callback, which runs the
/// function handed over, and loses none.
pub proof fn lemma_defer_adds_one<F: FnOnce()>(before: Global<F>, after: Global<F>, id: u64, f: F)
    requires
        before.wf(),
        before.registered(id),
        only_one_changed(&before, &after, id, |a: Local<F>, b: Local<F>| parked_callable(a, b, before.epoch(), f)),
    ensures
        exists|d: Deferred<F>|
            d.callable() == f && pending(&after).to_multiset() == pending(&before).to_multiset().insert(d),
{
    broadcast use vstd::seq_lib::group_to_multiset_ensures;

    let bl = before.locals();
    let al = after.locals();
    let n = bl.len();
    let ge = before.epoch();
    let i = choose|i: int| 0 <= i < n && #[trigger] bl[i].id() == id;
    let x = al[i];
    assert forall|j: int| 0 <= j < n && j != i implies al[j] == bl[j] by {
        if bl[j].id() == id {
            assert(bl[j].id() == bl[i].id());
        }
    }
    assert(al =~= bl.update(i, x));
    assert(parked_callable(bl[i], x, ge, f));
    let d = x.queue(ge).last();
    assert(x.queue(ge) =~= bl[i].queue(ge).push(d));
    lemma_gathered_update(bl, i, x, 0, n);
    lemma_gathered_update(bl, i, x, 1, n);
    lemma_gathered_update(bl, i, x, 2, n);
    let a0 = gathered(al, 0, n);
    let a1 = gathered(al, 1, n);
    let a2 = gathered(al, 2, n);
    let b0 = gathered(bl, 0, n);
    let b1 = gathered(bl, 1, n);
    let b2 = gathered(bl, 2, n);
    lemma_multiset_commutative(a0 + a1, a2);
    lemma_multiset_commutative(a0, a1);
    lemma_multiset_commutative(b0 + b1, b2);
    lemma_multiset_commutative(b0, b1);
    let one = Multiset::<Deferred<F>>::empty().insert(d);
    let none = Multiset::<Deferred<F>>::empty();
    assert(bl[i].queue(ge).push(d).to_multiset() =~= bl[i].queue(ge).to_multiset().add(one));
    assert forall|e: int| 0 <= e < 3 && e != ge implies
        (#[trigger] x.queue(e)).to_multiset() =~= bl[i].queue(e).to_multiset().add(none) by {
        assert(x.queue(e) == bl[i].queue(e));
    }
    lemma_cancel(a0.to_multiset(), b0.to_multiset(), bl[i].queue(0).to_multiset(), if ge == 0 { one } else { none });
    lemma_cancel(a1.to_multiset(), b1.to_multiset(), bl[i].queue(1).to_multiset(), if ge == 1 { one } else { none });
    lemma_cancel(a2.to_multiset(), b2.to_multiset(), bl[i].queue(2).to_multiset(), if ge == 2 { one } else { none });
    assert(pending(&after).to_multiset() =~= pending(&before).to_multiset().insert(d));
}

proof fn lemma_gathered_remove<F: FnOnce()>(b: Seq<Local<F>>, i: int, e: int, n: nat)
    requires
        0 <= i < n <= b.len(),
    ensures
        gathered(b.remove(i), e, (n - 1) as nat).to_multiset().add(b[i].queue(e).to_multiset())
            == gathered(b, e, n).to_multiset(),
    decreases n,
{
    let r = b.remove(i);
    let m = (n - 1) as nat;
    let bq = b[i].queue(e).to_multiset();
    assert(gathered(b, e, n) == gathered(b, e, m) + b[m as int].queue(e));
    lemma_multiset_commutative(gathered(b, e, m), b[m as int].queue(e));
    if m == i {
        lemma_gathered_same_prefix(r, b, e, m);
    } else {
        let k = (m - 1) as nat;
        lemma_gathered_remove(b, i, e, m);
        assert(r[k as int] == b[m as int]);
        assert(gathered(r, e, m) == gathered(r, e, k) + r[k as int].queue(e));
        lemma_multiset_commutative(gathered(r, e, k), r[k as int].queue(e));
        lemma_swap_add(gathered(r, e, k).to_multiset(), b[m as int].queue(e).to_multiset(), bq);
    }
}

/// Unregistering a participant loses and duplicates nothing: what it had
/// parked, handed back to be run at teardown, together with what stays
/// parked, is exactly what was parked before.
pub proof fn lemma_teardown_conserves<F: FnOnce()>(
    before: Global<F>,
    after: Global<F>,
    i: int,
    handed: Seq<Deferred<F>>,
)
    requires
        before.wf(),
        0 <= i < before.locals().len(),
        after.locals() == before.locals().remove(i),
        handed == before.locals()[i].queue(0) + before.locals()[i].queue(1) + before.locals()[i].queue(2),
    ensures
        pending(&before).to_multiset() == pending(&after).to_multiset().add(handed.to_multiset()),
{
    let bl = before.locals();
    let al = after.locals();
    let n = bl.len();
    let m = (n - 1) as nat;
    let l = bl[i];
    lemma_gathered_remove(bl, i, 0, n);
    lemma_gathered_remove(bl, i, 1, n);
    lemma_gathered_remove(bl, i, 2, n);
    let a0 = gathered(al, 0, m);
    let a1 = gathered(al, 1, m);
    let a2 = gathered(al, 2, m);
    let b0 = gathered(bl, 0, n);
    let b1 = gathered(bl, 1, n);
    let b2 = gathered(bl, 2, n);
    lemma_multiset_commutative(a0 + a1, a2);
    lemma_multiset_commutative(a0, a1);
    lemma_multiset_commutative(b0 + b1, b2);
    lemma_multiset_commutative(b0, b1);
    lemma_multiset_commutative(l.queue(0) + l.queue(1), l.queue(2));
    lemma_multiset_commutative(l.queue(0), l.queue(1));
    let pa = pending(&after).to_multiset();
    let h = handed.to_multiset();
    assert forall|v: Deferred<F>| pending(&before).to_multiset().count(v) == pa.add(h).count(v) by {
        assert(pa.add(h).count(v) == pa.count(v) + h.count(v));
        assert(pa == a0.to_multiset().add(a1.to_multiset()).add(a2.to_multiset()));
        assert(pa.count(v) == a0.to_multiset().add(a1.to_multiset()).count(v) + a2.to_multiset().count(v));
        assert(a0.to_multiset().add(a1.to_multiset()).count(v) == a0.to_multiset().count(v) + a1.to_multiset().count(v));
        let q0 = l.queue(0).to_multiset();
        let q1 = l.queue(1).to_multiset();
        let q2 = l.queue(2).to_multiset();
        assert(h == q0.add(q1).add(q2));
        assert(h.count(v) == q0.add(q1).count(v) + q2.count(v));
        assert(q0.add(q1).count(v) == q0.count(v) + q1.count(v));
        assert(b0.to_multiset().count(v) == a0.to_multiset().add(q0).count(v));
        assert(b1.to_multiset().count(v) == a1.to_multiset().add(q1).count(v));
        assert(b2.to_multiset().count(v) == a2.to_multiset().add(q2).count(v));
        assert(a0.to_multiset().add(q0).count(v) == a0.to_multiset().count(v) + q0.count(v));
        assert(a1.to_multiset().add(q1).count(v) == a1.to_multiset().count(v) + q1.count(v));
        assert(a2.to_multiset().add(q2).count(v) == a2.to_multiset().count(v) + q2.count(v));
        let pb = pending(&before).to_multiset();
        assert(pb == b0.to_multiset().add(b1.to_multiset()).add(b2.to_multiset()));
        assert(pb.count(v) == b0.to_multiset().add(b1.to_multiset()).count(v) + b2.to_multiset().count(v));
        assert(b0.to_multiset().add(b1.to_multiset()).count(v) == b0.to_multiset().count(v) + b1.to_multiset().count(v));
    }
    assert(pending(&before).to_multiset() =~= pa.add(h));
}

} // verus!
