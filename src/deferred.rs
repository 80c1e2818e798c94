//! A move-only carrier for a callback, stored in place when it is small
//! enough and on the heap otherwise.

use vstd::prelude::*;

verus! {

/// Size in bytes of the in-place payload: four machine words.
pub const PAYLOAD_SIZE: usize = 32;

/// Alignment in bytes of the in-place payload.
pub const PAYLOAD_ALIGN: usize = 8;

/// Whether a callable of this size and alignment is stored in place.
pub open spec fn fits_inline(size: nat, align: nat) -> bool {
    size < PAYLOAD_SIZE && align <= PAYLOAD_ALIGN
}

/// A callback waiting to be run once, stored either in place or on the heap.
pub enum Deferred<F: FnOnce()> {
    Inline(F),
    Boxed(Box<F>),
}

impl<F: FnOnce()> Deferred<F> {
    /// The callable that this carrier runs.
    pub open spec fn callable(&self) -> F {
        match self {
            Deferred::Inline(f) => *f,
            Deferred::Boxed(b) => **b,
        }
    }

    /// Whether the callable is held in place rather than on the heap.
    pub open spec fn is_inline(&self) -> bool {
        self is Inline
    }

    /// Packs `f`: in place when its size is under the payload and its
    /// alignment does not exceed the payload's, on the heap otherwise.
    pub fn new(f: F) -> (r: Self)
        ensures
            r.callable() == f,
            r.is_inline() == fits_inline(vstd::layout::size_of::<F>(), vstd::layout::align_of::<F>()),
    {
        let size = core::mem::size_of::<F>();
        let align = core::mem::align_of::<F>();
        if size < PAYLOAD_SIZE && align <= PAYLOAD_ALIGN {
            Deferred::Inline(f)
        } else {
            Deferred::Boxed(Box::new(f))
        }
    }

    /// Whether the callable is held in place.
    pub fn inline(&self) -> (r: bool)
        ensures
            r == self.is_inline(),
    {
        match self {
            Deferred::Inline(_) => true,
            Deferred::Boxed(_) => false,
        }
    }

    /// Runs the callable exactly once, consuming the carrier.
    pub fn run(self)
        requires
            call_requires(self.callable(), ()),
        ensures
            call_ensures(self.callable(), (), ()),
    {
        match self {
            Deferred::Inline(f) => f(),
            Deferred::Boxed(b) => {
                let f = *b;
                f()
            },
        }
    }
}

} // verus!
