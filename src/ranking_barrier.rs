//! The shared state of a cyclic barrier that also tells each thread its
//! order of arrival, as decision steps.
//!
//! A round has an entry phase, in which `size` threads arrive one by one,
//! and an exit phase, in which they all leave; no thread enters while the
//! previous round is leaving. A thread calls `wait` to enter, which gives
//! its rank (1 for the first arrival) or `None` while the barrier is still
//! emptying, and then `leave` until it answers `true`. Whenever either
//! step answers with no change, the thread waits on a condition variable;
//! every change wakes all waiters.

use vstd::prelude::*;

verus! {

pub struct RankingBarrier {
    count: u32,
    exiting: bool,
    size: u32,
}

impl RankingBarrier {
    /// Number of threads that take part in each round.
    pub closed spec fn spec_size(&self) -> nat {
        self.size as nat
    }

    /// Threads that entered the current round and have not left yet.
    pub closed spec fn inside(&self) -> nat {
        self.count as nat
    }

    /// Whether the current round is in its exit phase.
    pub closed spec fn is_exiting(&self) -> bool {
        self.exiting
    }

    /// While entering, at most `size` threads are inside; while exiting, at
    /// least one is.
    pub closed spec fn wf(&self) -> bool {
        &&& self.size >= 2
        &&& self.count <= self.size
        &&& (self.exiting ==> self.count >= 1)
    }

    /// A barrier for `size` threads; `None` for fewer than two.
    pub fn new(size: u32) -> (r: Option<Self>)
        ensures
            size < 2 <==> r is None,
            r matches Some(b) ==> b.wf() && b.spec_size() == size && b.inside() == 0
                && !b.is_exiting(),
    {
        if size < 2 {
            None
        } else {
            Some(RankingBarrier { count: 0, exiting: false, size })
        }
    }

    /// Enters the current round and returns the arrival rank; `None`, with
    /// nothing changed, while the previous round is leaving or the round is
    /// already complete.
    pub fn wait(&mut self) -> (r: Option<u32>)
        requires
            old(self).wf(),
        ensures
            final(self).wf(),
            final(self).spec_size() == old(self).spec_size(),
            final(self).is_exiting() == old(self).is_exiting(),
            (old(self).is_exiting() || old(self).inside() == old(self).spec_size()) <==> r is None,
            r is None ==> final(self).inside() == old(self).inside(),
            r matches Some(rank) ==> rank == old(self).inside() + 1 && final(self).inside()
                == rank && 1 <= rank <= old(self).spec_size(),
    {
        if self.exiting || self.count == self.size {
            None
        } else {
            self.count += 1;
            Some(self.count)
        }
    }

    /// Leaves the round once all `size` threads have entered (`true`); the
    /// first to leave starts the exit phase and the last one ends it, so the
    /// next round can begin. Answers `false`, with nothing changed, while
    /// threads are still arriving.
    pub fn leave(&mut self) -> (r: bool)
        requires
            old(self).wf(),
            old(self).inside() >= 1,
        ensures
            final(self).wf(),
            final(self).spec_size() == old(self).spec_size(),
            r == (old(self).is_exiting() || old(self).inside() == old(self).spec_size()),
            !r ==> *final(self) == *old(self),
            r ==> final(self).inside() == old(self).inside() - 1,
            r ==> final(self).is_exiting() == (final(self).inside() > 0),
    {
        if self.count != self.size && !self.exiting {
            return false;
        }
        if !self.exiting {
            self.exiting = true;
        }
        self.count -= 1;
        if self.count == 0 {
            self.exiting = false;
        }
        true
    }
}

} // verus!
