//! Epochs: the three generations that the global counter rotates through.

use vstd::prelude::*;

verus! {

/// Number of epochs in the rotation.
pub const EPOCHS: usize = 3;

/// An epoch is one of 0, 1 or 2.
pub open spec fn is_epoch(e: int) -> bool {
    0 <= e < EPOCHS
}

/// The epoch that follows `e` in the rotation.
pub open spec fn next(e: int) -> int {
    (e + 1) % (EPOCHS as int)
}

/// The epoch that follows `e`.
pub fn next_epoch(e: usize) -> (r: usize)
    requires
        is_epoch(e as int),
    ensures
        r as int == next(e as int),
        is_epoch(r as int),
{
    (e + 1) % EPOCHS
}

/// Moves the epoch held in `a` one step forward and returns the new value.
pub fn increment_epoch(a: &mut usize) -> (r: usize)
    requires
        is_epoch(*old(a) as int),
    ensures
        r as int == next(*old(a) as int),
        *final(a) == r,
        is_epoch(r as int),
{
    let current = *a;
    let n = next_epoch(current);
    *a = n;
    n
}

/// Three steps of the rotation come back to where they started.
pub proof fn lemma_next_three_times(e: int)
    requires
        is_epoch(e),
    ensures
        next(next(next(e))) == e,
        next(e) != e,
        next(next(e)) != e,
        next(next(e)) != next(e),
{
}

} // verus!
