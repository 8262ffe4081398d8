//! Sink Client Pool accounting: the lease discipline of the bounded pool
//! of store connections, as a verified model.
//!
//! The pool machinery itself (establishing connections, parking waiting
//! tasks) is asynchronous I/O and lives with the runtime; what is verified
//! here is the accounting every grant and release must follow: a lease is
//! granted only while fewer than `capacity` leases are outstanding, so no
//! more than `capacity` physical store connections are ever in use at
//! once. A caller that is not granted a lease waits and asks again;
//! waiting callers queue indefinitely rather than fail.

use vstd::prelude::*;

verus! {

/// Fixed capacity of the sink's client pool.
pub const POOL_MAX_SIZE: u64 = 20;

/// Failure to obtain a pooled client: the store was unreachable when a new
/// connection had to be established. Fatal to the single frame only.
#[derive(Clone, Copy, Debug, PartialEq, Eq, Structural)]
pub enum PoolError {
    Connect,
}

/// Lease accounting of a bounded pool.
#[derive(Debug)]
pub struct PoolSlots {
    capacity: u64,
    in_use: u64,
}

impl PoolSlots {
    /// The fixed number of physical connections the pool may hold.
    pub closed spec fn capacity(&self) -> u64 {
        self.capacity
    }

    /// Leases currently outstanding.
    pub closed spec fn in_use(&self) -> u64 {
        self.in_use
    }

    /// The pool invariant: outstanding leases never exceed capacity.
    pub open spec fn wf(&self) -> bool {
        self.in_use() <= self.capacity()
    }

    pub fn new(capacity: u64) -> (r: Self)
        ensures
            r.wf(),
            r.capacity() == capacity,
            r.in_use() == 0,
    {
        PoolSlots { capacity, in_use: 0 }
    }

    /// Ask for a lease. Granted exactly when a slot is free; a caller that
    /// is refused suspends and asks again later.
    pub fn try_acquire(&mut self) -> (granted: bool)
        requires
            old(self).wf(),
        ensures
            final(self).wf(),
            final(self).capacity() == old(self).capacity(),
            granted <==> old(self).in_use() < old(self).capacity(),
            granted ==> final(self).in_use() == old(self).in_use() + 1,
            !granted ==> final(self).in_use() == old(self).in_use(),
    {
        if self.in_use < self.capacity {
            self.in_use = self.in_use + 1;
            true
        } else {
            false
        }
    }

    /// Return a lease to the pool. Every lease is returned exactly once,
    /// whether or not the insert it served succeeded.
    pub fn release(&mut self)
        requires
            old(self).wf(),
            old(self).in_use() > 0,
        ensures
            final(self).wf(),
            final(self).capacity() == old(self).capacity(),
            final(self).in_use() == old(self).in_use() - 1,
    {
        self.in_use = self.in_use - 1;
    }

    pub fn free_slots(&self) -> (r: u64)
        requires
            self.wf(),
        ensures
            r == self.capacity() - self.in_use(),
    {
        self.capacity - self.in_use
    }
}

} // verus!
