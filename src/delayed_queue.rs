//! The shared state of a delayed queue, as decision steps: an unbounded
//! queue whose items each carry a deadline before which they may not be
//! taken out.
//!
//! Deadlines are instants written as ticks of a monotonic clock. A thread
//! that shares the queue keeps it behind a lock; when `take` answers
//! `Wait(d)` it waits on a condition variable until instant `d` or until the
//! queue changes, and then runs the step again. Every `offer` wakes all
//! waiters.

use vstd::prelude::*;

verus! {

/// What a `take` step decided.
pub enum Take<T> {
    /// The queue is empty.
    Empty,
    /// The item with the earliest deadline, which has passed.
    Ready(T),
    /// The earliest deadline has not passed yet; it is given.
    Wait(u64),
}

/// Position of the item with the earliest deadline among the first `n`,
/// the first one among equal deadlines.
pub open spec fn earliest<T>(s: Seq<(u64, T)>, n: nat) -> int
    decreases n,
{
    if n <= 1 {
        0
    } else {
        let j = earliest(s, (n - 1) as nat);
        if s[n - 1].0 < s[j].0 {
            n - 1
        } else {
            j
        }
    }
}

proof fn lemma_earliest_bounds<T>(s: Seq<(u64, T)>, n: nat)
    requires
        1 <= n <= s.len(),
    ensures
        0 <= earliest(s, n) < n,
        forall|k: int| 0 <= k < n ==> s[earliest(s, n)].0 <= #[trigger] s[k].0,
    decreases n,
{
    if n > 1 {
        lemma_earliest_bounds(s, (n - 1) as nat);
    }
}

pub struct DelayedQueue<T> {
    items: Vec<(u64, T)>,
}

impl<T> View for DelayedQueue<T> {
    type V = Seq<(u64, T)>;

    /// The items with their deadlines, in the order they were offered.
    closed spec fn view(&self) -> Seq<(u64, T)> {
        self.items@
    }
}

impl<T> DelayedQueue<T> {
    /// An empty queue.
    pub fn new() -> (r: Self)
        ensures
            r@ == Seq::<(u64, T)>::empty(),
    {
        DelayedQueue { items: Vec::new() }
    }

    /// Adds `t`, which may not be taken out before instant `deadline`.
    pub fn offer(&mut self, t: T, deadline: u64)
        ensures
            final(self)@ == old(self)@.push((deadline, t)),
    {
        self.items.push((deadline, t));
    }

    /// Looks at the item with the earliest deadline (the first offered among
    /// equal ones): when its deadline lies before `now` it is removed and
    /// returned; otherwise nothing changes and the caller is told how long
    /// to wait.
    pub fn take(&mut self, now: u64) -> (r: Take<T>)
        ensures
            old(self)@.len() == 0 ==> r == Take::<T>::Empty && final(self)@ == old(self)@,
            old(self)@.len() > 0 ==> ({
                let i = earliest(old(self)@, old(self)@.len());
                &&& 0 <= i < old(self)@.len()
                &&& forall|k: int|
                    0 <= k < old(self)@.len() ==> old(self)@[i].0 <= #[trigger] old(self)@[k].0
                &&& old(self)@[i].0 < now ==> r == Take::Ready(old(self)@[i].1) && final(self)@
                    == old(self)@.remove(i)
                &&& old(self)@[i].0 >= now ==> r == Take::<T>::Wait(old(self)@[i].0)
                    && final(self)@ == old(self)@
            }),
    {
        let n = self.items.len();
        if n == 0 {
            return Take::Empty;
        }
        let mut best: usize = 0;
        let mut k: usize = 1;
        while k < n
            invariant
                n == self.items@.len(),
                self.items@ == old(self)@,
                1 <= k <= n,
                best == earliest(self.items@, k as nat),
                best < k,
            decreases n - k,
        {
            if self.items[k].0 < self.items[best].0 {
                best = k;
            }
            k = k + 1;
        }
        proof { lemma_earliest_bounds(self.items@, n as nat); }
        let deadline = self.items[best].0;
        if deadline < now {
            let (_, t) = self.items.remove(best);
            Take::Ready(t)
        } else {
            Take::Wait(deadline)
        }
    }

    /// Number of items, whether their deadline has passed or not.
    pub fn size(&self) -> (r: usize)
        ensures
            r == self@.len(),
    {
        self.items.len()
    }
}

} // verus!
