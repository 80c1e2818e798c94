//! The registry of participants, the collection protocol, and the entry
//! points through which a participant uses them.

use vstd::prelude::*;

use crate::deferred::Deferred;
use crate::epoch::{increment_epoch, is_epoch, next};
use crate::local::{all_runnable, Local};

verus! {

/// The callbacks parked under epoch `e` by the first `n` participants of
/// `ls`, participant by participant, each queue oldest first.
pub open spec fn gathered<F: FnOnce()>(ls: Seq<Local<F>>, e: int, n: nat) -> Seq<Deferred<F>>
    decreases n,
{
    if n == 0 {
        Seq::empty()
    } else {
        gathered(ls, e, (n - 1) as nat) + ls[n - 1].queue(e)
    }
}

/// Shared state: the global epoch and the registry of participants.
pub struct Global<F: FnOnce()> {
    epoch: usize,
    locals: Vec<Local<F>>,
    next_id: u64,
}

impl<F: FnOnce()> Global<F> {
    /// The global epoch.
    pub closed spec fn epoch(&self) -> int {
        self.epoch as int
    }

    /// The registered participants.
    pub closed spec fn locals(&self) -> Seq<Local<F>> {
        self.locals@
    }

    /// The key that the next registration receives.
    pub closed spec fn next_id(&self) -> u64 {
        self.next_id
    }

    /// Whether a participant with key `id` is registered.
    pub open spec fn registered(&self, id: u64) -> bool {
        exists|i: int| 0 <= i < self.locals().len() && #[trigger] self.locals()[i].id() == id
    }

    /// The epoch is one of the three, every participant is well formed and
    /// holds a key below `next_id`, and no key is registered twice.
    pub open spec fn wf(&self) -> bool {
        &&& is_epoch(self.epoch())
        &&& forall|i: int| 0 <= i < self.locals().len() ==> (#[trigger] self.locals()[i]).wf()
        &&& forall|i: int|
            0 <= i < self.locals().len() ==> (#[trigger] self.locals()[i]).id() < self.next_id()
        &&& forall|i: int, j: int|
            0 <= i < self.locals().len() && 0 <= j < self.locals().len() && i != j
                ==> #[trigger] self.locals()[i].id() != #[trigger] self.locals()[j].id()
    }

    /// Whether some participant holds back the current epoch.
    pub open spec fn blocked(&self) -> bool {
        exists|i: int| 0 <= i < self.locals().len() && #[trigger] self.locals()[i].lags(self.epoch())
    }

    /// `new` is `self` after a collection that advanced the epoch and handed
    /// out `out`: the callbacks parked under the new epoch, which are
    /// removed from every participant.
    pub open spec fn advanced(&self, new: &Self, out: Seq<Deferred<F>>) -> bool {
        let e = next(self.epoch());
        &&& new.epoch() == e
        &&& new.next_id() == self.next_id()
        &&& new.locals().len() == self.locals().len()
        &&& forall|i: int|
            0 <= i < self.locals().len() ==> (#[trigger] self.locals()[i]).emptied(&new.locals()[i], e)
        &&& out == gathered(self.locals(), e, self.locals().len())
    }

    /// No participants, epoch 0.
    pub fn new() -> (r: Self)
        ensures
            r.wf(),
            r.epoch() == 0,
            r.locals().len() == 0,
    {
        Global { epoch: 0, locals: Vec::new(), next_id: 0 }
    }

    /// The current global epoch.
    pub fn current_epoch(&self) -> (r: usize)
        ensures
            r as int == self.epoch(),
    {
        self.epoch
    }

    /// Whether another participant can still be registered.
    pub fn can_register(&self) -> (r: bool)
        ensures
            r == (self.next_id() < u64::MAX),
    {
        self.next_id < u64::MAX
    }

    /// Registers a fresh participant and returns its key.
    pub fn add_local(&mut self) -> (r: u64)
        requires
            old(self).wf(),
            old(self).next_id() < u64::MAX,
        ensures
            final(self).wf(),
            r == old(self).next_id(),
            final(self).next_id() == r + 1,
            final(self).epoch() == old(self).epoch(),
            final(self).locals().len() == old(self).locals().len() + 1,
            final(self).locals().drop_last() == old(self).locals(),
            final(self).locals().last().id() == r,
            final(self).locals().last().active() == 0,
            final(self).locals().last().queue(0).len() == 0,
            final(self).locals().last().queue(1).len() == 0,
            final(self).locals().last().queue(2).len() == 0,
    {
        let id = self.next_id;
        self.locals.push(Local::new(id));
        self.next_id = id + 1;
        assert(self.locals().drop_last() =~= old(self).locals());
        id
    }

    /// Position of the participant with key `id`, if it is registered.
    pub fn position(&self, id: u64) -> (r: Option<usize>)
        ensures
            r is None <==> !self.registered(id),
            r matches Some(i) ==> i < self.locals().len() && self.locals()[i as int].id() == id,
    {
        let mut i: usize = 0;
        while i < self.locals.len()
            invariant
                i <= self.locals().len(),
                forall|j: int| 0 <= j < i ==> (#[trigger] self.locals()[j]).id() != id,
            decreases self.locals().len() - i,
        {
            if self.locals[i].key() == id {
                return Some(i);
            }
            i = i + 1;
        }
        None
    }

    /// Critical-section depth of the participant with key `id`, if it is
    /// registered.
    pub fn depth(&self, id: u64) -> (r: Option<usize>)
        requires
            self.wf(),
        ensures
            r is None <==> !self.registered(id),
            r matches Some(d) ==> d as nat == local_of(self, id).active(),
    {
        match self.position(id) {
            None => None,
            Some(i) => {
                proof {
                    let k = choose|k: int| 0 <= k < self.locals().len() && #[trigger] self.locals()[k].id() == id;
                    assert(k == i);
                }
                Some(self.locals[i].depth())
            },
        }
    }

    /// Unregisters the participant with key `id` and hands back every
    /// callback it still had parked, to be run by the caller. Nothing
    /// changes when no such participant is registered.
    pub fn remove_local(&mut self, id: u64) -> (r: Vec<Deferred<F>>)
        requires
            old(self).wf(),
        ensures
            final(self).wf(),
            !final(self).registered(id),
            final(self).epoch() == old(self).epoch(),
            final(self).next_id() == old(self).next_id(),
            all_runnable(r@),
            !old(self).registered(id) ==> *final(self) == *old(self) && r@.len() == 0,
            old(self).registered(id) ==> exists|i: int|
                0 <= i < old(self).locals().len()
                && #[trigger] old(self).locals()[i].id() == id
                && final(self).locals() == old(self).locals().remove(i)
                && r@ == old(self).locals()[i].queue(0) + old(self).locals()[i].queue(1)
                    + old(self).locals()[i].queue(2),
    {
        match self.position(id) {
            None => Vec::new(),
            Some(i) => {
                let mut local = self.locals.remove(i);
                let r = local.drain();
                assert forall|j: int, k: int|
                    0 <= j < self.locals().len() && 0 <= k < self.locals().len() && j != k
                    implies #[trigger] self.locals()[j].id() != #[trigger] self.locals()[k].id() by {
                    let oj = if j < i { j } else { j + 1 };
                    let ok = if k < i { k } else { k + 1 };
                    assert(self.locals()[j] == old(self).locals()[oj]);
                    assert(self.locals()[k] == old(self).locals()[ok]);
                }
                assert forall|j: int| 0 <= j < self.locals().len()
                    implies #[trigger] self.locals()[j].id() != id by {
                    let oj = if j < i { j } else { j + 1 };
                    assert(self.locals()[j] == old(self).locals()[oj]);
                }
                r
            },
        }
    }

    /// One collection attempt. When some participant is inside a critical
    /// section that began in an earlier epoch, nothing changes and `None`
    /// comes back. Otherwise the epoch advances by one and the callbacks
    /// parked under the new epoch (two steps behind the old one) are moved
    /// out of every participant and handed back, to be run by the caller
    /// once the registry is no longer held.
    pub fn collect(&mut self) -> (r: Option<Vec<Deferred<F>>>)
        requires
            old(self).wf(),
        ensures
            final(self).wf(),
            r is None <==> old(self).blocked(),
            r is None ==> *final(self) == *old(self),
            r matches Some(out) ==> old(self).advanced(final(self), out@) && all_runnable(out@),
    {
        let start = self.epoch;
        let mut i: usize = 0;
        while i < self.locals.len()
            invariant
                *self == *old(self),
                old(self).wf(),
                start as int == self.epoch(),
                i <= self.locals().len(),
                forall|j: int| 0 <= j < i ==> !(#[trigger] self.locals()[j]).lags(start as int),
            decreases self.locals().len() - i,
        {
            if self.locals[i].is_lagging(start) {
                assert(self.locals()[i as int].lags(self.epoch()));
                return None;
            }
            i = i + 1;
        }
        let e = increment_epoch(&mut self.epoch);
        let mut out: Vec<Deferred<F>> = Vec::new();
        let mut i: usize = 0;
        while i < self.locals.len()
            invariant
                self.wf(),
                self.epoch() == e,
                e as int == next(old(self).epoch()),
                self.next_id() == old(self).next_id(),
                self.locals().len() == old(self).locals().len(),
                i <= self.locals().len(),
                forall|j: int|
                    0 <= j < i ==> (#[trigger] old(self).locals()[j]).emptied(&self.locals()[j], e as int),
                forall|j: int| i <= j < self.locals().len() ==> #[trigger] self.locals()[j] == old(self).locals()[j],
                out@ == gathered(old(self).locals(), e as int, i as nat),
                all_runnable(out@),
            decreases self.locals().len() - i,
        {
            let mut taken = self.locals[i].take(e);
            out.append(&mut taken);
            proof {
                assert forall|j: int| 0 <= j < self.locals().len() implies #[trigger] self.locals()[j].id() < self.next_id() by {
                    assert(self.locals()[j].id() == old(self).locals()[j].id());
                }
            }
            i = i + 1;
        }
        Some(out)
    }
}

/// A participant's binding to the registry: the key under which its state
/// is registered.
pub struct TSLocal {
    id: u64,
}

impl TSLocal {
    /// The registration key.
    pub closed spec fn id(&self) -> u64 {
        self.id
    }

    /// Registers a fresh participant with `global` and binds to it.
    pub fn new<F: FnOnce()>(global: &mut Global<F>) -> (r: TSLocal)
        requires
            old(global).wf(),
            old(global).next_id() < u64::MAX,
        ensures
            final(global).wf(),
            final(global).registered(r.id()),
            !old(global).registered(r.id()),
            final(global).epoch() == old(global).epoch(),
            final(global).locals().drop_last() == old(global).locals(),
            final(global).locals().last().active() == 0,
    {
        let id = global.add_local();
        assert(global.locals()[global.locals().len() - 1].id() == id);
        TSLocal { id }
    }

    /// The registration key.
    pub fn key(&self) -> (r: u64)
        ensures
            r == self.id(),
    {
        self.id
    }
}

/// `new` is `old` with the participant keyed `id` moved by `step` and every
/// other participant, the epoch and the key counter untouched.
pub open spec fn only_one_changed<F: FnOnce()>(
    old: &Global<F>,
    new: &Global<F>,
    id: u64,
    step: spec_fn(Local<F>, Local<F>) -> bool,
) -> bool {
    &&& new.epoch() == old.epoch()
    &&& new.next_id() == old.next_id()
    &&& new.locals().len() == old.locals().len()
    &&& forall|i: int|
        0 <= i < old.locals().len() ==> if (#[trigger] old.locals()[i]).id() == id {
            step(old.locals()[i], new.locals()[i])
        } else {
            new.locals()[i] == old.locals()[i]
        }
}

/// `b` is `a` with one more callback, which runs `f`, at the end of the
/// queue of epoch `ge`.
pub open spec fn parked_callable<F: FnOnce()>(a: Local<F>, b: Local<F>, ge: int, f: F) -> bool {
    &&& b.queue(ge).len() == a.queue(ge).len() + 1
    &&& a.parked(&b, ge, b.queue(ge).last())
    &&& b.queue(ge).last().callable() == f
}

/// The participant keyed `id` in `g`.
pub open spec fn local_of<F: FnOnce()>(g: &Global<F>, id: u64) -> Local<F>
    recommends
        g.registered(id),
{
    let i = choose|i: int| 0 <= i < g.locals().len() && #[trigger] g.locals()[i].id() == id;
    g.locals()[i]
}

/// Enters a critical section on behalf of `handle`; the outermost entry
/// records the current global epoch.
pub fn enter_critical<F: FnOnce()>(global: &mut Global<F>, handle: &TSLocal)
    requires
        old(global).wf(),
        old(global).registered(handle.id()),
        local_of(old(global), handle.id()).active() < usize::MAX,
    ensures
        final(global).wf(),
        only_one_changed(
            old(global),
            final(global),
            handle.id(),
            |a: Local<F>, b: Local<F>| a.entered(&b, old(global).epoch()),
        ),
{
    let i = global.position(handle.id).unwrap();
    let e = global.epoch;
    global.locals[i].enter_critical(e);
    proof { lemma_only_one(old(global), global, handle.id(), i as int); }
}

/// Leaves one level of critical section on behalf of `handle`.
pub fn exit_critical<F: FnOnce()>(global: &mut Global<F>, handle: &TSLocal)
    requires
        old(global).wf(),
        old(global).registered(handle.id()),
        local_of(old(global), handle.id()).active() > 0,
    ensures
        final(global).wf(),
        only_one_changed(old(global), final(global), handle.id(), |a: Local<F>, b: Local<F>| a.exited(&b)),
{
    let i = global.position(handle.id).unwrap();
    global.locals[i].exit_critical();
    proof { lemma_only_one(old(global), global, handle.id(), i as int); }
}

/// Parks `f` on behalf of `handle` under the current global epoch.
pub fn defer<F: FnOnce()>(global: &mut Global<F>, handle: &TSLocal, f: F)
    requires
        old(global).wf(),
        old(global).registered(handle.id()),
        call_requires(f, ()),
    ensures
        final(global).wf(),
        only_one_changed(
            old(global),
            final(global),
            handle.id(),
            |a: Local<F>, b: Local<F>| parked_callable(a, b, old(global).epoch(), f),
        ),
{
    let d = Deferred::new(f);
    let i = global.position(handle.id).unwrap();
    let e = global.epoch;
    global.locals[i].defer(e, d);
    proof {
        let q = global.locals()[i as int].queue(e as int);
        assert(q.drop_last() =~= old(global).locals()[i as int].queue(e as int));
        lemma_only_one(old(global), global, handle.id(), i as int);
    }
}

/// Runs `f` inside a critical section on behalf of `handle` and returns its
/// result. Since `f` cannot reach the registry while this holds it, the call
/// is `f()` plus an entry and a matching exit: the participant ends at the
/// same depth, with the same queues.
pub fn protected<F: FnOnce(), T, G: FnOnce() -> T>(global: &mut Global<F>, handle: &TSLocal, f: G) -> (r: T)
    requires
        old(global).wf(),
        old(global).registered(handle.id()),
        local_of(old(global), handle.id()).active() < usize::MAX,
        call_requires(f, ()),
    ensures
        final(global).wf(),
        call_ensures(f, (), r),
        only_one_changed(
            old(global),
            final(global),
            handle.id(),
            |a: Local<F>, b: Local<F>|
                b.id() == a.id() && b.active() == a.active() && a.same_queues(&b)
                    && b.epoch() == (if a.active() == 0 { old(global).epoch() } else { a.epoch() }),
        ),
{
    let i = global.position(handle.id).unwrap();
    let e = global.epoch;
    global.locals[i].enter_critical(e);
    let r = f();
    global.locals[i].exit_critical();
    proof {
        assert(global.locals() =~= old(global).locals().update(i as int, global.locals()[i as int]));
        lemma_only_one(old(global), global, handle.id(), i as int);
    }
    r
}

/// Runs every callback of `batch` exactly once, in order.
pub fn run_all<F: FnOnce()>(batch: Vec<Deferred<F>>)
    requires
        all_runnable(batch@),
    ensures
        forall|i: int| 0 <= i < batch@.len() ==> call_ensures(#[trigger] batch@[i].callable(), (), ()),
{
    let ghost all = batch@;
    let mut batch = batch;
    let mut reversed: Vec<Deferred<F>> = Vec::new();
    while batch.len() > 0
        invariant
            batch@.len() + reversed@.len() == all.len(),
            batch@ == all.subrange(0, batch@.len() as int),
            forall|k: int| 0 <= k < reversed@.len() ==> #[trigger] reversed@[k] == all[all.len() - 1 - k],
        decreases batch@.len(),
    {
        let d = batch.pop().unwrap();
        reversed.push(d);
    }
    while reversed.len() > 0
        invariant
            all_runnable(all),
            reversed@.len() <= all.len(),
            forall|k: int| 0 <= k < reversed@.len() ==> #[trigger] reversed@[k] == all[all.len() - 1 - k],
            forall|k: int| 0 <= k < all.len() - reversed@.len() ==> call_ensures(#[trigger] all[k].callable(), (), ()),
        decreases reversed@.len(),
    {
        let d = reversed.pop().unwrap();
        proof {
            let k = all.len() - 1 - reversed@.len();
            assert(d == all[k]);
            assert(call_requires(all[k].callable(), ()));
        }
        d.run();
    }
}

proof fn lemma_only_one<F: FnOnce()>(old: &Global<F>, new: &Global<F>, id: u64, i: int)
    requires
        old.wf(),
        0 <= i < old.locals().len(),
        old.locals()[i].id() == id,
        new.epoch() == old.epoch(),
        new.next_id() == old.next_id(),
        new.locals() == old.locals().update(i, new.locals()[i]),
        new.locals()[i].wf(),
        new.locals()[i].id() == id,
    ensures
        new.wf(),
        forall|j: int| 0 <= j < old.locals().len() && (#[trigger] old.locals()[j]).id() == id ==> j == i,
        local_of(old, id) == old.locals()[i],
{
    let k = choose|k: int| 0 <= k < old.locals().len() && #[trigger] old.locals()[k].id() == id;
    assert(k == i);
}

} // verus!
