//! The shared state of an exchanger, through which two threads swap
//! values, as decision steps.
//!
//! A thread that shares it keeps it behind a lock and calls `exchange`. If
//! no one is waiting, its value is left in the first slot and it is told to
//! wait: it then waits on a condition variable and calls `collect` until it
//! gets the partner's value. If someone is waiting, the caller leaves its
//! value in the second slot, takes the waiting value and wakes the waiter.

use vstd::prelude::*;

verus! {

/// What an `exchange` step decided.
pub enum Exchange<T> {
    /// The value was left for a partner; the caller waits and collects.
    Waiting,
    /// A partner was waiting: here is its value.
    Swapped(T),
}

pub struct Exchanger<T> {
    first: Option<T>,
    second: Option<T>,
}

impl<T> Exchanger<T> {
    /// The value left by a thread waiting for a partner.
    pub closed spec fn offered(&self) -> Option<T> {
        self.first
    }

    /// The value left for the waiting thread by its partner.
    pub closed spec fn answered(&self) -> Option<T> {
        self.second
    }

    /// An exchanger with both slots empty.
    pub fn new() -> (r: Self)
        ensures
            r.offered() is None,
            r.answered() is None,
    {
        Exchanger { first: None, second: None }
    }

    /// Offers `t`: left for a partner when nobody waits, or swapped with the
    /// waiting value.
    pub fn exchange(&mut self, t: T) -> (r: Exchange<T>)
        ensures
            old(self).offered() is None ==> r == Exchange::<T>::Waiting && final(self).offered()
                == Some(t) && final(self).answered() == old(self).answered(),
            old(self).offered() matches Some(v) ==> r == Exchange::Swapped(v)
                && final(self).offered() is None && final(self).answered() == Some(t),
    {
        if self.first.is_none() {
            self.first = Some(t);
            Exchange::Waiting
        } else {
            self.second = Some(t);
            match self.first.take() {
                Some(v) => Exchange::Swapped(v),
                None => Exchange::Waiting,
            }
        }
    }

    /// Takes the partner's value for a waiting thread, once it is there.
    pub fn collect(&mut self) -> (r: Option<T>)
        ensures
            r == old(self).answered(),
            final(self).answered() is None,
            final(self).offered() == old(self).offered(),
    {
        self.second.take()
    }
}

} // verus!
