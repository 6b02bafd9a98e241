//! The shared state of two semaphores, as decision steps.
//!
//! A thread that shares one of these keeps it behind a lock. `acquire`
//! answers `false` when the caller has to wait on a condition variable and
//! try again once woken; `release` is followed by waking one waiter.

use vstd::prelude::*;

verus! {

/// A lock with a single permit.
pub struct BinarySemaphore {
    taken: bool,
}

impl BinarySemaphore {
    /// Whether the permit is held.
    pub closed spec fn is_taken(&self) -> bool {
        self.taken
    }

    /// A semaphore whose permit is free.
    pub fn new() -> (r: Self)
        ensures
            !r.is_taken(),
    {
        BinarySemaphore { taken: false }
    }

    /// Takes the permit when it is free (`true`); when it is held, changes
    /// nothing and answers `false`: the caller waits.
    pub fn acquire(&mut self) -> (r: bool)
        ensures
            r == !old(self).is_taken(),
            final(self).is_taken(),
    {
        if self.taken {
            false
        } else {
            self.taken = true;
            true
        }
    }

    /// Gives the permit back.
    pub fn release(&mut self)
        ensures
            !final(self).is_taken(),
    {
        self.taken = false;
    }
}

/// A counting semaphore: a number of available permits.
pub struct Semaphore {
    count: u32,
}

impl Semaphore {
    /// Number of available permits.
    pub closed spec fn permits(&self) -> nat {
        self.count as nat
    }

    /// A semaphore with `count` permits.
    pub fn new(count: u32) -> (r: Self)
        ensures
            r.permits() == count,
    {
        Semaphore { count }
    }

    /// Takes one permit when there is one (`true`); with none left, changes
    /// nothing and answers `false`: the caller waits.
    pub fn acquire(&mut self) -> (r: bool)
        ensures
            r == (old(self).permits() > 0),
            r ==> final(self).permits() == old(self).permits() - 1,
            !r ==> final(self).permits() == old(self).permits(),
    {
        if self.count == 0 {
            false
        } else {
            self.count -= 1;
            true
        }
    }

    /// Adds one permit.
    pub fn release(&mut self)
        requires
            old(self).permits() < u32::MAX,
        ensures
            final(self).permits() == old(self).permits() + 1,
    {
        self.count += 1;
    }

    /// Number of available permits.
    pub fn available(&self) -> (r: u32)
        ensures
            r == self.permits(),
    {
        self.count
    }
}

} // verus!
