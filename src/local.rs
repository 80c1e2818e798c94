//! Per-participant state: critical-section depth, observed epoch and the
//! three queues of parked callbacks.

use vstd::prelude::*;

use crate::deferred::Deferred;
use crate::epoch::is_epoch;

verus! {

/// Whether every callback in `q` may be run.
pub open spec fn all_runnable<F: FnOnce()>(q: Seq<Deferred<F>>) -> bool {
    forall|i: int| 0 <= i < q.len() ==> call_requires(#[trigger] q[i].callable(), ())
}

/// State of one participant: its critical-section depth, the epoch it
/// observed on its outermost entry, and one queue of parked callbacks per
/// epoch.
pub struct Local<F: FnOnce()> {
    id: u64,
    active: usize,
    epoch: usize,
    deferred0: Vec<Deferred<F>>,
    deferred1: Vec<Deferred<F>>,
    deferred2: Vec<Deferred<F>>,
}

impl<F: FnOnce()> Local<F> {
    /// The participant's registration key.
    pub closed spec fn id(&self) -> u64 {
        self.id
    }

    /// Depth of nested critical sections; positive while inside one.
    pub closed spec fn active(&self) -> nat {
        self.active as nat
    }

    /// The global epoch observed on the outermost entry.
    pub closed spec fn epoch(&self) -> int {
        self.epoch as int
    }

    /// The callbacks parked under epoch `e`, oldest first.
    pub closed spec fn queue(&self, e: int) -> Seq<Deferred<F>> {
        if e == 0 {
            self.deferred0@
        } else if e == 1 {
            self.deferred1@
        } else {
            self.deferred2@
        }
    }

    /// The epoch is one of the three and every parked callback may be run.
    pub open spec fn wf(&self) -> bool {
        &&& is_epoch(self.epoch())
        &&& self.active() <= usize::MAX
        &&& all_runnable(self.queue(0))
        &&& all_runnable(self.queue(1))
        &&& all_runnable(self.queue(2))
    }

    /// Both hold the same callbacks under every epoch.
    pub open spec fn same_queues(&self, other: &Self) -> bool {
        self.same_queues_but(other, -1)
    }

    /// Both hold the same callbacks under every epoch other than `ge`.
    pub open spec fn same_queues_but(&self, other: &Self, ge: int) -> bool {
        &&& ge != 0 ==> self.queue(0) == other.queue(0)
        &&& ge != 1 ==> self.queue(1) == other.queue(1)
        &&& ge != 2 ==> self.queue(2) == other.queue(2)
    }

    /// `new` is `self` after entering a critical section while the global
    /// epoch is `ge`: only the outermost entry records the epoch.
    pub open spec fn entered(&self, new: &Self, ge: int) -> bool {
        &&& new.id() == self.id()
        &&& new.active() == self.active() + 1
        &&& new.epoch() == (if self.active() == 0 { ge } else { self.epoch() })
        &&& self.same_queues(new)
    }

    /// `new` is `self` after leaving one level of critical section.
    pub open spec fn exited(&self, new: &Self) -> bool {
        &&& new.id() == self.id()
        &&& new.active() + 1 == self.active()
        &&& new.epoch() == self.epoch()
        &&& self.same_queues(new)
    }

    /// `new` is `self` with `d` appended to the queue of epoch `ge`.
    pub open spec fn parked(&self, new: &Self, ge: int, d: Deferred<F>) -> bool {
        &&& new.id() == self.id()
        &&& new.active() == self.active()
        &&& new.epoch() == self.epoch()
        &&& new.queue(ge) == self.queue(ge).push(d)
        &&& self.same_queues_but(new, ge)
    }

    /// `new` is `self` with the queue of epoch `ge` emptied.
    pub open spec fn emptied(&self, new: &Self, ge: int) -> bool {
        &&& new.id() == self.id()
        &&& new.active() == self.active()
        &&& new.epoch() == self.epoch()
        &&& new.queue(ge) == Seq::<Deferred<F>>::empty()
        &&& self.same_queues_but(new, ge)
    }

    /// Whether this participant is inside a critical section that began in
    /// an epoch other than `ge`.
    pub open spec fn lags(&self, ge: int) -> bool {
        self.active() > 0 && self.epoch() != ge
    }

    /// A participant outside any critical section, with nothing parked.
    pub fn new(id: u64) -> (r: Self)
        ensures
            r.wf(),
            r.id() == id,
            r.active() == 0,
            r.epoch() == 0,
            r.queue(0) == Seq::<Deferred<F>>::empty(),
            r.queue(1) == Seq::<Deferred<F>>::empty(),
            r.queue(2) == Seq::<Deferred<F>>::empty(),
    {
        let r = Local {
            id,
            active: 0,
            epoch: 0,
            deferred0: Vec::new(),
            deferred1: Vec::new(),
            deferred2: Vec::new(),
        };
        r
    }

    /// Registration key of this participant.
    pub fn key(&self) -> (r: u64)
        ensures
            r == self.id(),
    {
        self.id
    }

    /// Depth of nested critical sections.
    pub fn depth(&self) -> (r: usize)
        ensures
            r as nat == self.active(),
    {
        self.active
    }

    /// Enters a critical section while the global epoch is `global_epoch`;
    /// the outermost entry records that epoch.
    pub fn enter_critical(&mut self, global_epoch: usize)
        requires
            old(self).wf(),
            is_epoch(global_epoch as int),
            old(self).active() < usize::MAX,
        ensures
            final(self).wf(),
            old(self).entered(final(self), global_epoch as int),
    {
        let previous = self.active;
        self.active = previous + 1;
        if previous == 0 {
            self.epoch = global_epoch;
        }
    }

    /// Leaves one level of critical section.
    pub fn exit_critical(&mut self)
        requires
            old(self).wf(),
            old(self).active() > 0,
        ensures
            final(self).wf(),
            old(self).exited(final(self)),
    {
        self.active = self.active - 1;
    }

    /// Parks `d` under the epoch `global_epoch`.
    pub fn defer(&mut self, global_epoch: usize, d: Deferred<F>)
        requires
            old(self).wf(),
            is_epoch(global_epoch as int),
            call_requires(d.callable(), ()),
        ensures
            final(self).wf(),
            old(self).parked(final(self), global_epoch as int, d),
    {
        if global_epoch == 0 {
            self.deferred0.push(d);
        } else if global_epoch == 1 {
            self.deferred1.push(d);
        } else {
            self.deferred2.push(d);
        }
    }

    /// Moves out the callbacks parked under `e`.
    pub fn take(&mut self, e: usize) -> (r: Vec<Deferred<F>>)
        requires
            old(self).wf(),
            is_epoch(e as int),
        ensures
            final(self).wf(),
            old(self).emptied(final(self), e as int),
            r@ == old(self).queue(e as int),
            all_runnable(r@),
    {
        let mut r: Vec<Deferred<F>> = Vec::new();
        if e == 0 {
            std::mem::swap(&mut self.deferred0, &mut r);
        } else if e == 1 {
            std::mem::swap(&mut self.deferred1, &mut r);
        } else {
            std::mem::swap(&mut self.deferred2, &mut r);
        }
        r
    }

    /// Moves out every parked callback, oldest epoch index first.
    pub fn drain(&mut self) -> (r: Vec<Deferred<F>>)
        requires
            old(self).wf(),
        ensures
            final(self).wf(),
            final(self).id() == old(self).id(),
            final(self).active() == old(self).active(),
            final(self).epoch() == old(self).epoch(),
            final(self).queue(0) == Seq::<Deferred<F>>::empty(),
            final(self).queue(1) == Seq::<Deferred<F>>::empty(),
            final(self).queue(2) == Seq::<Deferred<F>>::empty(),
            r@ == old(self).queue(0) + old(self).queue(1) + old(self).queue(2),
            all_runnable(r@),
    {
        let mut r = self.take(0);
        let mut r1 = self.take(1);
        let mut r2 = self.take(2);
        r.append(&mut r1);
        r.append(&mut r2);
        r
    }

    /// Whether this participant holds back the epoch `global_epoch`.
    pub fn is_lagging(&self, global_epoch: usize) -> (r: bool)
        ensures
            r == self.lags(global_epoch as int),
    {
        self.active > 0 && self.epoch != global_epoch
    }
}

} // verus!
