//! The shared state of a count-down latch, as decision steps.
//!
//! Threads wait until a counter, positive at the start, has been counted
//! down to zero. A thread that shares the latch keeps it behind a lock;
//! when `await_ready` answers `false` it waits on a condition variable, and
//! a `countDown` that answers `true` is followed by waking every waiter.

use vstd::prelude::*;

verus! {

pub struct CountDownLatch {
    counter: usize,
}

impl CountDownLatch {
    /// What is left to count down.
    pub closed spec fn remaining(&self) -> nat {
        self.counter as nat
    }

    /// A latch that opens after `counter` count-downs; `None` for zero.
    pub fn new(counter: usize) -> (r: Option<Self>)
        ensures
            counter == 0 <==> r is None,
            r matches Some(l) ==> l.remaining() == counter,
    {
        if counter == 0 {
            None
        } else {
            Some(CountDownLatch { counter })
        }
    }

    /// Whether a waiting thread may go on: the counter has reached zero.
    pub fn await_ready(&self) -> (r: bool)
        ensures
            r == (self.remaining() == 0),
    {
        self.counter == 0
    }

    /// Counts down by one if the counter is above zero; answers whether this
    /// call brought it to zero, in which case every waiter is to be woken.
    #[allow(non_snake_case)]
    pub fn countDown(&mut self) -> (r: bool)
        ensures
            old(self).remaining() > 0 ==> final(self).remaining() == old(self).remaining() - 1,
            old(self).remaining() == 0 ==> final(self).remaining() == 0,
            r == (old(self).remaining() == 1),
    {
        if self.counter > 0 {
            self.counter -= 1;
            self.counter == 0
        } else {
            false
        }
    }
}

} // verus!
