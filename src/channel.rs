//! Shared state of a bounded multi-producer/multi-consumer channel.
//!
//! The channel's operations are decision steps: each one looks at the state,
//! changes it, and says what the calling thread must do next. A caller that
//! shares the channel between threads keeps it behind one lock and, when a
//! step answers `Full` or `Empty`, waits on a condition variable and runs the
//! step again once woken. Every state change wakes all waiters.

use std::collections::VecDeque;
use vstd::prelude::*;

verus! {

/// What a `send` step decided.
pub enum SendResult<T> {
    /// The item was appended to the buffer.
    Accepted,
    /// The channel is closed; the item was dropped.
    Closed,
    /// The buffer is full and the channel open: the item is handed back and
    /// the caller waits for space (or for the channel to close).
    Full(T),
}

/// What a `recv` step decided.
pub enum RecvResult<T> {
    /// The head of the buffer was removed and is returned.
    Value(T),
    /// The channel is closed and nothing is left to read.
    ClosedAndEmpty,
    /// The buffer is empty and the channel open: the caller waits.
    Empty,
}

/// Abstract state of a channel: the buffered items (head first), the fixed
/// capacity and whether the channel is still open.
pub struct ChannelModel<T> {
    pub items: Seq<T>,
    pub capacity: nat,
    pub open: bool,
}

/// One operation on a channel, for stating properties of sequences of calls.
pub enum ChannelOp<T> {
    Send(T),
    Recv,
    Shutdown,
}

impl<T> ChannelModel<T> {
    /// The capacity is positive and the buffer never holds more than it.
    pub open spec fn wf(self) -> bool {
        self.capacity >= 1 && self.items.len() <= self.capacity
    }

    pub open spec fn is_full(self) -> bool {
        self.items.len() >= self.capacity
    }

    pub open spec fn send_result(self, e: T) -> SendResult<T> {
        if !self.open {
            SendResult::Closed
        } else if self.is_full() {
            SendResult::Full(e)
        } else {
            SendResult::Accepted
        }
    }

    pub open spec fn after_send(self, e: T) -> ChannelModel<T> {
        if self.open && !self.is_full() {
            ChannelModel { items: self.items.push(e), ..self }
        } else {
            self
        }
    }

    pub open spec fn recv_result(self) -> RecvResult<T> {
        if self.items.len() > 0 {
            RecvResult::Value(self.items[0])
        } else if !self.open {
            RecvResult::ClosedAndEmpty
        } else {
            RecvResult::Empty
        }
    }

    pub open spec fn after_recv(self) -> ChannelModel<T> {
        if self.items.len() > 0 {
            ChannelModel { items: self.items.drop_first(), ..self }
        } else {
            self
        }
    }

    pub open spec fn after_shutdown(self) -> ChannelModel<T> {
        ChannelModel { open: false, ..self }
    }

    pub open spec fn apply(self, op: ChannelOp<T>) -> ChannelModel<T> {
        match op {
            ChannelOp::Send(e) => self.after_send(e),
            ChannelOp::Recv => self.after_recv(),
            ChannelOp::Shutdown => self.after_shutdown(),
        }
    }

    /// The state after running `ops` in order.
    pub open spec fn run(self, ops: Seq<ChannelOp<T>>) -> ChannelModel<T>
        decreases ops.len(),
    {
        if ops.len() == 0 {
            self
        } else {
            self.apply(ops[0]).run(ops.drop_first())
        }
    }

    /// The state after `k` receive steps.
    pub open spec fn drain(self, k: nat) -> ChannelModel<T>
        decreases k,
    {
        if k == 0 {
            self
        } else {
            self.after_recv().drain((k - 1) as nat)
        }
    }

    /// The state after sending each of `vals` in order.
    pub open spec fn send_all(self, vals: Seq<T>) -> ChannelModel<T>
        decreases vals.len(),
    {
        if vals.len() == 0 {
            self
        } else {
            self.after_send(vals[0]).send_all(vals.drop_first())
        }
    }
}

/// The state a bounded channel keeps under its lock.
pub struct MpMcChannel<T> {
    buff: VecDeque<T>,
    n: usize,
    open: bool,
}

impl<T> View for MpMcChannel<T> {
    type V = ChannelModel<T>;

    closed spec fn view(&self) -> ChannelModel<T> {
        ChannelModel { items: self.buff@, capacity: self.n as nat, open: self.open }
    }
}

impl<T> MpMcChannel<T> {
    /// The capacity is positive and the buffer holds at most that many items.
    pub open spec fn wf(&self) -> bool {
        self@.wf()
    }

    /// An empty, open channel holding at most `n` items.
    pub fn new(n: usize) -> (r: Self)
        requires
            n >= 1,
        ensures
            r.wf(),
            r@ == (ChannelModel::<T> { items: Seq::empty(), capacity: n as nat, open: true }),
    {
        let r = MpMcChannel { buff: VecDeque::new(), n, open: true };
        assert(r@.items =~= Seq::<T>::empty());
        r
    }

    /// Appends `e` at the tail when the channel is open and has room.
    pub fn send(&mut self, e: T) -> (r: SendResult<T>)
        requires
            old(self).wf(),
        ensures
            final(self).wf(),
            r == old(self)@.send_result(e),
            final(self)@ == old(self)@.after_send(e),
    {
        proof { use_len(&self.buff); }
        if !self.open {
            return SendResult::Closed;
        }
        if self.buff.len() >= self.n {
            return SendResult::Full(e);
        }
        self.buff.push_back(e);
        SendResult::Accepted
    }

    /// Removes the head of the buffer; buffered items are handed out even
    /// after the channel was closed.
    pub fn recv(&mut self) -> (r: RecvResult<T>)
        requires
            old(self).wf(),
        ensures
            final(self).wf(),
            r == old(self)@.recv_result(),
            final(self)@ == old(self)@.after_recv(),
    {
        proof { use_len(&self.buff); }
        if self.buff.len() > 0 {
            match self.buff.pop_front() {
                Some(t) => RecvResult::Value(t),
                None => RecvResult::Empty,
            }
        } else if !self.open {
            RecvResult::ClosedAndEmpty
        } else {
            RecvResult::Empty
        }
    }

    /// Closes the channel for good; buffered items stay readable.
    pub fn shutdown(&mut self) -> (r: Option<()>)
        requires
            old(self).wf(),
        ensures
            final(self).wf(),
            r == Some(()),
            final(self)@ == old(self)@.after_shutdown(),
    {
        self.open = false;
        Some(())
    }

    /// Number of buffered items.
    pub fn len(&self) -> (r: usize)
        ensures
            r == self@.items.len(),
    {
        proof { use_len(&self.buff); }
        self.buff.len()
    }

    pub fn capacity(&self) -> (r: usize)
        ensures
            r == self@.capacity,
    {
        self.n
    }

    pub fn is_open(&self) -> (r: bool)
        ensures
            r == self@.open,
    {
        self.open
    }
}

proof fn use_len<T>(v: &VecDeque<T>)
    ensures
        v@.len() == v.len(),
{
    broadcast use vstd::std_specs::vecdeque::axiom_spec_len;
}

/// Whatever operations run on a well-formed channel, the buffer never holds
/// more items than the capacity.
pub proof fn lemma_capacity_invariant<T>(s: ChannelModel<T>, ops: Seq<ChannelOp<T>>)
    requires
        s.wf(),
    ensures
        s.run(ops).wf(),
        s.run(ops).capacity == s.capacity,
    decreases ops.len(),
{
    if ops.len() > 0 {
        lemma_capacity_invariant(s.apply(ops[0]), ops.drop_first());
    }
}

/// Closing a channel loses nothing: after `shutdown`, `k` receives leave
/// exactly the items that followed the first `k`, the next receive returns
/// the next buffered item in order, and once all are out it reports
/// `ClosedAndEmpty`.
pub proof fn lemma_no_loss<T>(s: ChannelModel<T>, k: nat)
    requires
        s.wf(),
        k <= s.items.len(),
    ensures
        s.after_shutdown().drain(k).items == s.items.skip(k as int),
        !s.after_shutdown().drain(k).open,
        k < s.items.len() ==> s.after_shutdown().drain(k).recv_result() == RecvResult::Value(
            s.items[k as int],
        ),
        k == s.items.len() ==> s.after_shutdown().drain(k).recv_result()
            == RecvResult::<T>::ClosedAndEmpty,
{
    lemma_drain_skips(s.after_shutdown(), k);
}

proof fn lemma_drain_skips<T>(s: ChannelModel<T>, k: nat)
    requires
        k <= s.items.len(),
    ensures
        s.drain(k).items == s.items.skip(k as int),
        s.drain(k).open == s.open,
        s.drain(k).capacity == s.capacity,
    decreases k,
{
    if k == 0 {
        assert(s.items.skip(0) =~= s.items);
    } else {
        let t = s.after_recv();
        lemma_drain_skips(t, (k - 1) as nat);
        assert(t.items.skip(k - 1) =~= s.items.skip(k as int));
    }
}

/// Sending values one after another into an open channel with room for all
/// of them accepts each one and buffers them in the order they were sent.
pub proof fn lemma_sends_keep_order<T>(s: ChannelModel<T>, vals: Seq<T>)
    requires
        s.wf(),
        s.open,
        s.items.len() + vals.len() <= s.capacity,
    ensures
        s.send_all(vals).items == s.items + vals,
        s.send_all(vals).open,
        s.send_all(vals).capacity == s.capacity,
        forall|i: int|
            0 <= i < vals.len() ==> s.send_all(vals.take(i)).send_result(vals[i])
                == SendResult::<T>::Accepted,
    decreases vals.len(),
{
    if vals.len() == 0 {
        assert(s.items + vals =~= s.items);
    } else {
        let t = s.after_send(vals[0]);
        lemma_sends_keep_order(t, vals.drop_first());
        assert(t.items + vals.drop_first() =~= s.items + vals);
        assert forall|i: int| 0 <= i < vals.len() implies s.send_all(vals.take(i)).send_result(
            vals[i],
        ) == SendResult::<T>::Accepted by {
            if i == 0 {
                assert(vals.take(0).len() == 0);
            } else {
                assert(vals.take(i).drop_first() =~= vals.drop_first().take(i - 1));
                assert(vals.take(i)[0] == vals[0]);
                assert(s.send_all(vals.take(i)) == t.send_all(vals.drop_first().take(i - 1)));
                assert(vals.drop_first()[i - 1] == vals[i]);
            }
        }
    }
}

/// Values sent one after another into an empty open channel with room for
/// all of them, of which `j` are received before `shutdown`, all come out
/// afterwards: the `k`-th receive after the shutdown returns value `j + k`,
/// and once all are out receives report `ClosedAndEmpty`.
pub proof fn lemma_shutdown_after_sends_loses_nothing<T>(
    capacity: nat,
    vals: Seq<T>,
    j: nat,
    k: nat,
)
    requires
        capacity >= 1,
        vals.len() <= capacity,
        j + k <= vals.len(),
    ensures
        ({
            let start = ChannelModel::<T> { items: Seq::empty(), capacity, open: true };
            let after = start.send_all(vals).drain(j).after_shutdown().drain(k);
            &&& j + k < vals.len() ==> after.recv_result() == RecvResult::Value(vals[(j + k) as int])
            &&& j + k == vals.len() ==> after.recv_result() == RecvResult::<T>::ClosedAndEmpty
        }),
{
    let start = ChannelModel::<T> { items: Seq::empty(), capacity, open: true };
    lemma_sends_keep_order(start, vals);
    assert(start.items + vals =~= vals);
    let sent = start.send_all(vals);
    lemma_drain_skips(sent, j);
    let kept = sent.drain(j);
    assert(kept.wf());
    lemma_no_loss(kept, k);
    if j + k < vals.len() {
        assert(kept.items[k as int] == vals[(j + k) as int]);
    }
}

/// Closing twice has the same effect as closing once.
pub proof fn lemma_shutdown_idempotent<T>(s: ChannelModel<T>)
    ensures
        s.after_shutdown().after_shutdown() == s.after_shutdown(),
{
}

/// Closing is for good: once closed, a channel stays closed whatever
/// operations follow, and every send on it is refused without a change.
pub proof fn lemma_closed_stays_closed<T>(s: ChannelModel<T>, ops: Seq<ChannelOp<T>>, e: T)
    requires
        !s.open,
    ensures
        !s.run(ops).open,
        s.run(ops).send_result(e) == SendResult::<T>::Closed,
        s.run(ops).after_send(e) == s.run(ops),
    decreases ops.len(),
{
    if ops.len() > 0 {
        lemma_closed_stays_closed(s.apply(ops[0]), ops.drop_first(), e);
    }
}

/// A closed, drained channel rejects every send and reports `ClosedAndEmpty`
/// to every receive, and no sequence of operations changes it any more.
pub proof fn lemma_closed_and_drained_is_final<T>(s: ChannelModel<T>, ops: Seq<ChannelOp<T>>)
    requires
        !s.open,
        s.items.len() == 0,
    ensures
        s.run(ops) == s,
        forall|e: T| s.send_result(e) == SendResult::<T>::Closed && s.after_send(e) == s,
        s.recv_result() == RecvResult::<T>::ClosedAndEmpty,
        s.after_recv() == s,
    decreases ops.len(),
{
    if ops.len() > 0 {
        assert(s.apply(ops[0]) == s);
        lemma_closed_and_drained_is_final(s, ops.drop_first());
    }
}

/// After `shutdown` no step asks its caller to wait: a send that was waiting
/// for room now gets `Closed`, and a receive that was waiting for data gets
/// either a buffered item or `ClosedAndEmpty`.
pub proof fn lemma_shutdown_unblocks<T>(s: ChannelModel<T>, e: T)
    ensures
        s.after_shutdown().send_result(e) == SendResult::<T>::Closed,
        s.after_shutdown().recv_result() != RecvResult::<T>::Empty,
        s.items.len() == 0 ==> s.after_shutdown().recv_result()
            == RecvResult::<T>::ClosedAndEmpty,
{
}

} // verus!
