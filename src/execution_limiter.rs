//! The shared state of a limiter that lets at most `limit` operations run at
//! once, as decision steps.
//!
//! A thread that shares it keeps it behind a lock. Before running its
//! operation it calls `enter`; an answer of `false` means it waits on a
//! condition variable and tries again once woken. After the operation, even
//! one that failed, it calls `exit` and wakes the waiters.

use vstd::prelude::*;

verus! {

pub struct ExecutionLimiter {
    counter: u32,
    limit: u32,
}

impl ExecutionLimiter {
    /// Operations running now.
    pub closed spec fn running(&self) -> nat {
        self.counter as nat
    }

    pub closed spec fn spec_limit(&self) -> nat {
        self.limit as nat
    }

    pub open spec fn wf(&self) -> bool {
        self.running() <= self.spec_limit()
    }

    /// A limiter that admits at most `limit` operations at a time.
    pub fn new(limit: u32) -> (r: Self)
        ensures
            r.wf(),
            r.running() == 0,
            r.spec_limit() == limit,
    {
        ExecutionLimiter { counter: 0, limit }
    }

    /// Admits one more operation when fewer than `limit` run (`true`);
    /// otherwise changes nothing and answers `false`: the caller waits.
    pub fn enter(&mut self) -> (r: bool)
        requires
            old(self).wf(),
        ensures
            final(self).wf(),
            final(self).spec_limit() == old(self).spec_limit(),
            r == (old(self).running() < old(self).spec_limit()),
            r ==> final(self).running() == old(self).running() + 1,
            !r ==> final(self).running() == old(self).running(),
    {
        if self.counter < self.limit {
            self.counter += 1;
            true
        } else {
            false
        }
    }

    /// Records that an admitted operation has finished.
    pub fn exit(&mut self)
        requires
            old(self).wf(),
            old(self).running() > 0,
        ensures
            final(self).wf(),
            final(self).spec_limit() == old(self).spec_limit(),
            final(self).running() == old(self).running() - 1,
    {
        self.counter -= 1;
    }
}

} // verus!
