//! A fixed-size circular buffer over a vector of slots.
//!
//! `head` is the slot of the oldest item and `tail` the slot the next write
//! goes to; `full` tells a full buffer from an empty one when they coincide.

use vstd::prelude::*;

verus! {

/// The slot after `x` in a storage of `cap` slots.
pub open spec fn next_slot(x: nat, cap: nat) -> nat {
    if x + 1 == cap {
        0
    } else {
        x + 1
    }
}

/// `x` brought back into `0..cap`, for `x < 2 * cap`.
pub open spec fn wrap(x: int, cap: int) -> int {
    if x < cap {
        x
    } else {
        x - cap
    }
}

pub struct CircularBuffer<T: Default> {
    full: bool,
    head: usize,
    tail: usize,
    buffer: Vec<T>,
    capacity: usize,
}

/// A vector of `n` default values.
fn filled_with_default<T: Default>(n: usize) -> (r: Vec<T>)
    ensures
        r@.len() == n,
{
    let mut v: Vec<T> = Vec::new();
    while v.len() < n
        invariant
            v@.len() <= n,
        decreases n - v@.len(),
    {
        v.push(T::default());
    }
    v
}

impl<T: Default> CircularBuffer<T> {
    pub closed spec fn wf(&self) -> bool {
        &&& self.capacity >= 1
        &&& self.buffer@.len() == self.capacity
        &&& self.head < self.capacity
        &&& self.tail < self.capacity
        &&& (self.full ==> self.head == self.tail)
    }

    pub closed spec fn spec_capacity(&self) -> nat {
        self.capacity as nat
    }

    pub closed spec fn spec_head(&self) -> nat {
        self.head as nat
    }

    pub closed spec fn spec_tail(&self) -> nat {
        self.tail as nat
    }

    /// Number of buffered items.
    pub closed spec fn spec_size(&self) -> nat {
        if self.full {
            self.capacity as nat
        } else if self.tail >= self.head {
            (self.tail - self.head) as nat
        } else {
            (self.capacity - (self.head - self.tail)) as nat
        }
    }

    /// The buffered items, oldest first.
    pub closed spec fn items(&self) -> Seq<T> {
        Seq::new(
            self.spec_size(),
            |i: int| self.buffer@[wrap(self.head + i, self.capacity as int)],
        )
    }

    proof fn lemma_tail_position(&self)
        requires
            self.wf(),
        ensures
            self.spec_size() <= self.spec_capacity(),
            self.tail == wrap(self.head + self.spec_size(), self.capacity as int),
    {
    }

    /// An empty buffer with room for `capacity` items.
    pub fn new(capacity: usize) -> (r: Self)
        requires
            capacity >= 1,
        ensures
            r.wf(),
            r.items() == Seq::<T>::empty(),
            r.spec_capacity() == capacity,
            r.spec_head() == 0,
            r.spec_tail() == 0,
    {
        let r = CircularBuffer {
            full: false,
            head: 0,
            tail: 0,
            buffer: filled_with_default(capacity),
            capacity,
        };
        assert(r.items() =~= Seq::<T>::empty());
        r
    }

    /// Appends `item` after the newest item; fails on a full buffer.
    pub fn write(&mut self, item: T) -> (r: Result<(), String>)
        requires
            old(self).wf(),
        ensures
            final(self).wf(),
            final(self).spec_capacity() == old(self).spec_capacity(),
            r.is_err() <==> old(self).items().len() == old(self).spec_capacity(),
            r.is_err() ==> *final(self) == *old(self),
            r.is_ok() ==> final(self).items() == old(self).items().push(item),
            r.is_ok() ==> final(self).spec_head() == old(self).spec_head() && final(self).spec_tail()
                == next_slot(old(self).spec_tail(), old(self).spec_capacity()),
    {
        proof { self.lemma_tail_position(); }
        if self.full {
            Err("Buffer pieno!".to_string())
        } else {
            let ghost old_items = self.items();
            let ghost old_size = self.spec_size();
            let t = self.tail;
            self.buffer.set(t, item);
            self.tail = if t + 1 == self.capacity {
                0
            } else {
                t + 1
            };
            if self.tail == self.head {
                self.full = true;
            }
            assert(self.spec_size() == old_size + 1);
            assert(self.items() =~= old_items.push(item));
            Ok(())
        }
    }

    /// Removes and returns the oldest item, or `None` on an empty buffer.
    pub fn read(&mut self) -> (r: Option<T>)
        requires
            old(self).wf(),
        ensures
            final(self).wf(),
            final(self).spec_capacity() == old(self).spec_capacity(),
            old(self).items().len() == 0 ==> r == None::<T> && *final(self) == *old(self),
            old(self).items().len() > 0 ==> r == Some(old(self).items()[0]) && final(self).items()
                == old(self).items().drop_first(),
            old(self).items().len() > 0 ==> final(self).spec_tail() == old(self).spec_tail()
                && final(self).spec_head() == next_slot(
                old(self).spec_head(),
                old(self).spec_capacity(),
            ),
    {
        proof { self.lemma_tail_position(); }
        if self.size() == 0 {
            None
        } else {
            let ghost old_items = self.items();
            let ghost old_size = self.spec_size();
            let h = self.head;
            let mut el = T::default();
            self.buffer.set_and_swap(h, &mut el);
            self.head = if h + 1 == self.capacity {
                0
            } else {
                h + 1
            };
            if self.full {
                self.full = false;
            }
            assert(self.spec_size() == old_size - 1);
            assert(self.items() =~= old_items.drop_first());
            Some(el)
        }
    }

    /// Empties the buffer and moves both positions back to the first slot.
    pub fn clear(&mut self)
        requires
            old(self).wf(),
        ensures
            final(self).wf(),
            final(self).items() == Seq::<T>::empty(),
            final(self).spec_capacity() == old(self).spec_capacity(),
            final(self).spec_head() == 0,
            final(self).spec_tail() == 0,
    {
        self.buffer = filled_with_default(self.capacity);
        self.tail = 0;
        self.full = false;
        self.head = 0;
        assert(self.items() =~= Seq::<T>::empty());
    }

    /// Number of buffered items.
    pub fn size(&self) -> (r: usize)
        requires
            self.wf(),
        ensures
            r == self.spec_size(),
            r == self.items().len(),
            r <= self.spec_capacity(),
    {
        if self.full {
            self.capacity
        } else if self.tail >= self.head {
            self.tail - self.head
        } else {
            self.capacity - (self.head - self.tail)
        }
    }

    /// Writes `item` when there is room; on a full buffer it replaces the
    /// oldest item in place.
    pub fn overwrite(&mut self, item: T)
        requires
            old(self).wf(),
        ensures
            final(self).wf(),
            final(self).spec_capacity() == old(self).spec_capacity(),
            old(self).items().len() < old(self).spec_capacity() ==> final(self).items() == old(
                self,
            ).items().push(item) && final(self).spec_head() == old(self).spec_head()
                && final(self).spec_tail() == next_slot(
                old(self).spec_tail(),
                old(self).spec_capacity(),
            ),
            old(self).items().len() == old(self).spec_capacity() ==> final(self).items() == old(
                self,
            ).items().update(0, item) && final(self).spec_head() == old(self).spec_head()
                && final(self).spec_tail() == old(self).spec_tail(),
    {
        proof { self.lemma_tail_position(); }
        if self.size() < self.capacity {
            let _ = self.write(item);
        } else {
            let ghost old_items = self.items();
            let h = self.head;
            self.buffer.set(h, item);
            assert(self.items() =~= old_items.update(0, item));
        }
    }

    /// Moves the items to the front of the storage, oldest first, when they
    /// wrap around its end; the items themselves do not change.
    pub fn make_contiguos(&mut self)
        requires
            old(self).wf(),
        ensures
            final(self).wf(),
            final(self).items() == old(self).items(),
            final(self).spec_capacity() == old(self).spec_capacity(),
            old(self).spec_head() > old(self).spec_tail() ==> final(self).spec_head() == 0
                && final(self).spec_tail() == (if old(self).items().len() == old(self).spec_capacity() {
                0
            } else {
                old(self).items().len()
            }),
            old(self).spec_head() <= old(self).spec_tail() ==> *final(self) == *old(self),
    {
        proof { self.lemma_tail_position(); }
        if self.head > self.tail {
            let ghost old_items = self.items();
            let len = self.size();
            let cap = self.capacity;
            let head = self.head;
            let mut old_buf: Vec<T> = Vec::new();
            std::mem::swap(&mut self.buffer, &mut old_buf);
            let mut buffer: Vec<T> = filled_with_default(cap);
            let mut i: usize = 0;
            while i < len
                invariant
                    len == old_items.len(),
                    len <= cap,
                    head < cap,
                    old_buf@.len() == cap,
                    buffer@.len() == cap,
                    0 <= i <= len,
                    forall|j: int| 0 <= j < i ==> buffer@[j] == old_items[j],
                    forall|j: int|
                        i <= j < len ==> old_buf@[wrap(head + j, cap as int)] == old_items[j],
                decreases len - i,
            {
                let p = if head >= cap - i {
                    head - (cap - i)
                } else {
                    head + i
                };
                let mut el = T::default();
                old_buf.set_and_swap(p, &mut el);
                buffer.set(i, el);
                i = i + 1;
            }
            self.buffer = buffer;
            self.head = 0;
            self.tail = if len == cap {
                0
            } else {
                len
            };
            assert(self.items() =~= old_items);
        }
    }

    /// Slot the next write goes to.
    pub fn tail(&self) -> (r: usize)
        ensures
            r == self.spec_tail(),
    {
        self.tail
    }

    /// Slot of the oldest item.
    pub fn head(&self) -> (r: usize)
        ensures
            r == self.spec_head(),
    {
        self.head
    }

    /// Replaces the item at position `index`, counted from the oldest.
    pub fn set(&mut self, index: usize, item: T)
        requires
            old(self).wf(),
            index < old(self).items().len(),
        ensures
            final(self).wf(),
            final(self).spec_capacity() == old(self).spec_capacity(),
            final(self).items() == old(self).items().update(index as int, item),
            final(self).spec_head() == old(self).spec_head(),
            final(self).spec_tail() == old(self).spec_tail(),
    {
        proof { self.lemma_tail_position(); }
        let ghost old_items = self.items();
        let p = if self.head >= self.capacity - index {
            self.head - (self.capacity - index)
        } else {
            self.head + index
        };
        self.buffer.set(p, item);
        assert(self.items() =~= old_items.update(index as int, item));
    }

    /// The items as one slice, when they do not wrap around the end of the
    /// storage.
    pub fn as_slice(&self) -> (r: &[T])
        requires
            self.wf(),
            self.spec_tail() > self.spec_head(),
        ensures
            r@ == self.items(),
    {
        let r = vstd::slice::slice_subrange(self.buffer.as_slice(), self.head, self.tail);
        assert(r@ =~= self.items());
        r
    }
}

impl<T: Default> std::ops::Index<usize> for CircularBuffer<T> {
    type Output = T;

    /// The item at position `index`, counted from the oldest.
    fn index(&self, index: usize) -> (r: &T)
        ensures
            self.wf() ==> *r == self.items()[index as int],
    {
        proof {
            if self.wf() {
                self.lemma_tail_position();
            }
        }
        let p = if self.head >= self.capacity - index {
            self.head - (self.capacity - index)
        } else {
            self.head + index
        };
        &self.buffer[p]
    }
}

impl<T: Default> vstd::std_specs::core::IndexSpecImpl<usize> for CircularBuffer<T> {
    open spec fn index_req(&self, index: &usize) -> bool {
        self.wf() && *index < self.items().len()
    }
}

} // verus!
