//! The shared state of a synchronizer that pairs readings arriving on two
//! ports, as decision steps.
//!
//! A reading from one port waits for a reading from the other; the thread
//! that arrived first then processes the pair. A thread that shares the
//! synchronizer keeps it behind a lock and calls the `data_from_..._port`
//! step for its port. On `Paired` its reading was handed to a waiting
//! thread, which it wakes. On `Waiting` it waits on a condition variable
//! and calls the matching `collect_...` step until it gets the other
//! reading, then processes the pair.

use vstd::prelude::*;

verus! {

/// What a `data_from_..._port` step decided.
pub enum Arrival {
    /// The reading was left for the other port's thread; wait and collect.
    Waiting,
    /// A thread of the other port was waiting; the reading was handed to it.
    Paired,
}

pub struct Synchronizer<T> {
    first: Option<T>,
    second: Option<T>,
}

impl<T: Copy> Synchronizer<T> {
    /// The reading left at the first port.
    pub closed spec fn from_first(&self) -> Option<T> {
        self.first
    }

    /// The reading left at the second port.
    pub closed spec fn from_second(&self) -> Option<T> {
        self.second
    }

    /// A synchronizer with no reading at either port.
    pub fn new() -> (r: Self)
        ensures
            r.from_first() is None,
            r.from_second() is None,
    {
        Synchronizer { first: None, second: None }
    }

    /// A reading arrives at the first port. It is left there either way; it
    /// pairs with a reading already waiting at the second port, if any.
    pub fn data_from_first_port(&mut self, data: T) -> (r: Arrival)
        ensures
            final(self).from_first() == Some(data),
            final(self).from_second() == old(self).from_second(),
            r is Paired <==> old(self).from_second() is Some,
    {
        self.first = Some(data);
        if self.second.is_none() {
            Arrival::Waiting
        } else {
            Arrival::Paired
        }
    }

    /// A reading arrives at the second port; the mirror image of
    /// `data_from_first_port`.
    pub fn data_from_second_port(&mut self, data: T) -> (r: Arrival)
        ensures
            final(self).from_second() == Some(data),
            final(self).from_first() == old(self).from_first(),
            r is Paired <==> old(self).from_first() is Some,
    {
        self.second = Some(data);
        if self.first.is_none() {
            Arrival::Waiting
        } else {
            Arrival::Paired
        }
    }

    /// For a thread waiting at the first port: once the second port's
    /// reading is there, takes it and clears both ports.
    pub fn collect_second(&mut self) -> (r: Option<T>)
        ensures
            r == old(self).from_second(),
            r is Some ==> final(self).from_first() is None && final(self).from_second() is None,
            r is None ==> final(self).from_first() == old(self).from_first()
                && final(self).from_second() is None,
    {
        match self.second.take() {
            Some(v) => {
                self.first = None;
                Some(v)
            },
            None => None,
        }
    }

    /// For a thread waiting at the second port: once the first port's
    /// reading is there, takes it and clears both ports.
    pub fn collect_first(&mut self) -> (r: Option<T>)
        ensures
            r == old(self).from_first(),
            r is Some ==> final(self).from_first() is None && final(self).from_second() is None,
            r is None ==> final(self).from_second() == old(self).from_second()
                && final(self).from_first() is None,
    {
        match self.first.take() {
            Some(v) => {
                self.second = None;
                Some(v)
            },
            None => None,
        }
    }
}

} // verus!
