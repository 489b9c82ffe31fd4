//! A counted lock on the mouse cursor.
//!
//! Several drag modes may want the cursor captured at the same time. Each of
//! them locks when it starts and unlocks when it ends; the cursor itself is
//! captured by the first lock and given back by the last unlock.

use vstd::prelude::*;

verus! {

/// Counts how many holders currently want the cursor captured.
#[derive(Debug)]
pub struct CursorLock {
    heat: usize,
}

impl CursorLock {
    /// The number of holders.
    pub closed spec fn heat(&self) -> nat {
        self.heat as nat
    }

    /// Whether the cursor is captured.
    pub open spec fn held(&self) -> bool {
        self.heat() > 0
    }

    /// A lock that nobody holds.
    pub fn new() -> (lock: Self)
        ensures
            lock.heat() == 0,
    {
        Self { heat: 0 }
    }

    /// Adds a holder. Returns `true` when this holder is the first one, which
    /// is when the caller has to capture the cursor.
    pub fn lock(&mut self) -> (first: bool)
        requires
            old(self).heat() < usize::MAX,
        ensures
            final(self).heat() == old(self).heat() + 1,
            first == !old(self).held(),
    {
        self.heat += 1;
        self.heat == 1
    }

    /// Removes a holder. Returns `true` when this holder was the last one,
    /// which is when the caller has to give the cursor back. Unlocking a lock
    /// that nobody holds changes nothing and returns `false`.
    pub fn unlock(&mut self) -> (last: bool)
        ensures
            final(self).heat() == if old(self).held() { old(self).heat() - 1 } else { 0 },
            last == (old(self).heat() == 1),
    {
        if self.heat != 0 {
            self.heat -= 1;
            if self.heat == 0 {
                return true;
            }
        }
        false
    }

    /// The number of holders.
    pub fn holders(&self) -> (n: usize)
        ensures
            n == self.heat(),
    {
        self.heat
    }

    /// Whether the cursor is captured.
    pub fn is_locked(&self) -> (b: bool)
        ensures
            b == self.held(),
    {
        self.heat != 0
    }
}

} // verus!
