//! A slot lock for handing a token from one thread to the next.
use std::sync::atomic::{AtomicUsize, Ordering};
use vstd::prelude::*;

verus! {

/// The slot value that means "no token".
pub const EMPTY: usize = usize::MAX;

/// The slot value of a lock created with `value`.
pub open spec fn initial_slot(value: Option<usize>) -> usize {
    match value {
        Some(v) => v,
        None => EMPTY,
    }
}

/// A one-token slot: `unlock` leaves a token in it, `try_lock` takes it.
pub struct SpinLock(AtomicUsize);

pub fn slot_value(value: Option<usize>) -> (r: usize)
    ensures
        r == initial_slot(value),
{
    match value {
        Some(v) => v,
        None => EMPTY,
    }
}

impl SpinLock {
    /// A slot holding `value`, or empty for `None`.
    pub fn new(value: Option<usize>) -> (r: SpinLock) {
        SpinLock(AtomicUsize::new(slot_value(value)))
    }

    /// Takes the token if one is there, leaving the slot empty.
    pub fn try_lock(&self) -> (r: Option<usize>)
        ensures
            r matches Some(v) ==> v != EMPTY,
    {
        let gotten = self.0.swap(EMPTY, Ordering::SeqCst);
        if gotten != EMPTY {
            Some(gotten)
        } else {
            None
        }
    }

    /// Leaves `value` in the slot.
    pub fn unlock(&self, value: usize) {
        self.0.store(value, Ordering::SeqCst)
    }
}

/// What a ring member does with the token value it received: the value
/// it passes on (one less, stopping at 0), whether it is the member that
/// announces itself (it got 1), and whether it is done (it got 1 or 0).
pub fn pass_token(value: usize) -> (r: (usize, bool, bool))
    ensures
        r.0 == if value == 0 {
            0
        } else {
            value - 1
        },
        r.1 == (value == 1),
        r.2 == (value <= 1),
{
    (value.saturating_sub(1), value == 1, value <= 1)
}

} // verus!
