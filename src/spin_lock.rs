//! A test-and-set lock flag guarding a critical section the caller keeps
//! elsewhere. The value of an atomic is not modelled, so these calls carry
//! no contract: what they give is the memory ordering of the flag.
use vstd::prelude::*;
use std::sync::atomic::{AtomicBool, Ordering};

verus! {

pub struct SpinLock {
    lock: AtomicBool,
}

impl SpinLock {
    /// A lock that nobody holds.
    pub fn new() -> Self {
        SpinLock { lock: AtomicBool::new(false) }
    }

    /// One attempt to take the lock: sets the flag with acquire ordering and
    /// returns whether it was clear before, that is whether this call took
    /// it. Spinning on this until it returns `true` is the caller's policy.
    pub fn try_lock(&self) -> bool {
        !self.lock.swap(true, Ordering::Acquire)
    }

    /// Releases the lock: clears the flag with release ordering.
    pub fn unlock(&self) {
        self.lock.store(false, Ordering::Release);
    }
}

impl Default for SpinLock {
    /// A lock that nobody holds, as `new` gives.
    fn default() -> Self {
        Self::new()
    }
}

} // verus!
