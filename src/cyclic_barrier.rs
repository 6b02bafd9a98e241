//! The shared state of a cyclic barrier that collects one item from each
//! thread of a round and hands every thread the whole collection, as
//! decision steps.
//!
//! A thread that shares it keeps it behind a lock and calls `arrive` with
//! its item. While the previous round is still being handed out, nobody
//! enters: `Busy` gives the item back, and the thread waits on a condition
//! variable and arrives again once woken. On `Waiting` it has joined the
//! round and waits, calling `resume` each time it is woken, until that
//! answers `true`. On `Complete`, or once `resume` answers `true`, `finish`
//! gives it the round's items; the last thread out empties the barrier for
//! the next round. Opening the barrier and emptying it wake all waiters.

use vstd::prelude::*;

verus! {

/// What an `arrive` step decided.
pub enum Arrival<T> {
    /// This arrival completed the round and opened the barrier.
    Complete,
    /// The item joined the round; the caller waits for the round to fill.
    Waiting,
    /// The previous round is still leaving; the item is handed back and the
    /// caller arrives again later.
    Busy(T),
}

pub struct CyclicBarrier<T> {
    items: Vec<T>,
    open: bool,
    n_threads: usize,
    limit: usize,
}

impl<T: Clone> CyclicBarrier<T> {
    /// Items collected in the current round, in order of arrival.
    pub closed spec fn collected(&self) -> Seq<T> {
        self.items@
    }

    /// Whether the round is complete and threads are leaving.
    pub closed spec fn is_open(&self) -> bool {
        self.open
    }

    /// Threads of the current round that have not left yet.
    pub closed spec fn waiting(&self) -> nat {
        self.n_threads as nat
    }

    /// Number of threads in each round.
    pub closed spec fn spec_limit(&self) -> nat {
        self.limit as nat
    }

    pub open spec fn wf(&self) -> bool {
        self.waiting() < self.spec_limit()
    }

    /// A closed, empty barrier for rounds of `limit` threads.
    pub fn new(limit: usize) -> (r: Self)
        requires
            limit >= 1,
        ensures
            r.wf(),
            r.collected() == Seq::<T>::empty(),
            !r.is_open(),
            r.waiting() == 0,
            r.spec_limit() == limit,
    {
        CyclicBarrier { items: Vec::new(), open: false, n_threads: 0, limit }
    }

    /// Adds `item` to the round, unless the barrier is open: then the
    /// previous round is being handed out, nothing changes and the item is
    /// handed back. The arrival that fills the round opens the barrier;
    /// earlier ones are counted as waiting.
    pub fn arrive(&mut self, item: T) -> (r: Arrival<T>)
        requires
            old(self).wf(),
        ensures
            final(self).wf(),
            final(self).spec_limit() == old(self).spec_limit(),
            old(self).is_open() ==> r == Arrival::Busy(item) && *final(self) == *old(self),
            !old(self).is_open() ==> final(self).collected() == old(self).collected().push(item),
            !old(self).is_open() && old(self).waiting() + 1 == old(self).spec_limit() ==> r
                == Arrival::<T>::Complete && final(self).is_open() && final(self).waiting()
                == old(self).waiting(),
            !old(self).is_open() && old(self).waiting() + 1 < old(self).spec_limit() ==> r
                == Arrival::<T>::Waiting && !final(self).is_open() && final(self).waiting()
                == old(self).waiting() + 1,
    {
        if self.open {
            return Arrival::Busy(item);
        }
        self.items.push(item);
        if self.n_threads + 1 == self.limit {
            self.open = true;
            Arrival::Complete
        } else {
            self.n_threads += 1;
            Arrival::Waiting
        }
    }

    /// A waiting thread, woken: it stops waiting once the barrier is open.
    pub fn resume(&mut self) -> (r: bool)
        requires
            old(self).wf(),
            old(self).waiting() > 0,
        ensures
            final(self).wf(),
            final(self).spec_limit() == old(self).spec_limit(),
            final(self).collected() == old(self).collected(),
            final(self).is_open() == old(self).is_open(),
            r == old(self).is_open(),
            r ==> final(self).waiting() == old(self).waiting() - 1,
            !r ==> final(self).waiting() == old(self).waiting(),
    {
        if self.open {
            self.n_threads -= 1;
            true
        } else {
            false
        }
    }

    /// The round's items for a thread on its way out; when no thread waits
    /// any more, the barrier closes and empties for the next round.
    pub fn finish(&mut self) -> (r: Vec<T>)
        requires
            old(self).wf(),
        ensures
            final(self).wf(),
            final(self).spec_limit() == old(self).spec_limit(),
            final(self).waiting() == old(self).waiting(),
            r@.len() == old(self).collected().len(),
            forall|i: int|
                0 <= i < r@.len() ==> cloned::<T>(old(self).collected()[i], #[trigger] r@[i]),
            old(self).waiting() == 0 ==> !final(self).is_open() && final(self).collected()
                == Seq::<T>::empty(),
            old(self).waiting() > 0 ==> final(self).is_open() == old(self).is_open()
                && final(self).collected() == old(self).collected(),
    {
        let res = self.items.clone();
        if self.n_threads == 0 {
            self.open = false;
            self.items = Vec::new();
        }
        res
    }
}

} // verus!
