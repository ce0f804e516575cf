//! Connection pool manager: a bounded pool of database connections.
//!
//! The pool hands out leases and reclaims them. Capacity is fixed at
//! construction and never grows; acquisition on an exhausted pool fails with
//! a recoverable error rather than blocking forever or crashing.

use vstd::prelude::*;

verus! {

/// A lease on one pool slot. A value of this type is only obtainable from
/// [`Pool::acquire`] and is consumed by [`Pool::release`], so a holder is
/// always accounted for in the pool's in-use count.
#[derive(Debug)]
pub struct Connection {
    _lease: (),
}

/// Why an acquisition failed.
#[derive(PartialEq, Eq, Structural, Clone, Copy, Debug)]
pub enum PoolError {
    /// Every slot is currently leased out.
    Exhausted,
}

/// A bounded pool of reusable backing-store connections.
pub struct Pool {
    capacity: u32,
    in_use: u32,
}

impl Pool {
    pub closed spec fn spec_capacity(self) -> u32 {
        self.capacity
    }

    pub closed spec fn spec_in_use(self) -> u32 {
        self.in_use
    }

    /// The pool never has more connections leased out than its capacity.
    pub open spec fn wf(self) -> bool {
        self.spec_in_use() <= self.spec_capacity()
    }

    /// True when at least one slot is free, i.e. an acquisition will succeed.
    pub open spec fn has_free_slot(self) -> bool {
        self.spec_in_use() < self.spec_capacity()
    }

    /// A fresh pool: fixed capacity, nothing leased out.
    pub fn new(capacity: u32) -> (r: Pool)
        ensures
            r.wf(),
            r.spec_capacity() == capacity,
            r.spec_in_use() == 0,
    {
        Pool { capacity, in_use: 0 }
    }

    pub fn capacity(&self) -> (r: u32)
        ensures
            r == self.spec_capacity(),
    {
        self.capacity
    }

    pub fn in_use(&self) -> (r: u32)
        ensures
            r == self.spec_in_use(),
    {
        self.in_use
    }

    /// Lease one connection. Succeeds exactly when a slot is free; an
    /// exhausted pool reports `PoolError::Exhausted` and is left unchanged.
    pub fn acquire(&mut self) -> (r: Result<Connection, PoolError>)
        requires
            old(self).wf(),
        ensures
            final(self).wf(),
            final(self).spec_capacity() == old(self).spec_capacity(),
            r is Ok <==> old(self).has_free_slot(),
            r is Ok ==> final(self).spec_in_use() == old(self).spec_in_use() + 1,
            r is Err ==> *final(self) == *old(self) && r == Result::<Connection, PoolError>::Err(PoolError::Exhausted),
    {
        if self.in_use < self.capacity {
            self.in_use = self.in_use + 1;
            Ok(Connection { _lease: () })
        } else {
            Err(PoolError::Exhausted)
        }
    }

    /// Return a lease. Never fails: every `Connection` witnesses a slot that
    /// is currently counted in use.
    pub fn release(&mut self, conn: Connection)
        requires
            old(self).wf(),
            old(self).spec_in_use() >= 1,
        ensures
            final(self).wf(),
            final(self).spec_capacity() == old(self).spec_capacity(),
            final(self).spec_in_use() == old(self).spec_in_use() - 1,
    {
        let Connection { _lease: () } = conn;
        self.in_use = self.in_use - 1;
    }
}

/// Acquire/release is balanced: a successful acquisition followed by the
/// release of that lease restores the pool to exactly its previous state, so
/// after any number of balanced uses the in-use count returns to where it
/// started.
pub proof fn lemma_acquire_release_balanced(before: Pool, leased: Pool, after: Pool)
    requires
        before.wf(),
        before.has_free_slot(),
        leased.spec_capacity() == before.spec_capacity(),
        leased.spec_in_use() == before.spec_in_use() + 1,
        after.spec_capacity() == leased.spec_capacity(),
        after.spec_in_use() == leased.spec_in_use() - 1,
    ensures
        after == before,
{
}

} // verus!
