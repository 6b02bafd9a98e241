//! A singly linked stack built from a recursive `Cons`/`Nil` enum.

use vstd::prelude::*;

verus! {

pub enum ListLink<T> {
    Cons(T, Box<ListLink<T>>),
    Nil,
}

impl<T> ListLink<T> {
    /// The elements from this link to the end, first one first.
    pub open spec fn to_seq(&self) -> Seq<T>
        decreases self,
    {
        match self {
            ListLink::Cons(e, next) => seq![*e].add(next.to_seq()),
            ListLink::Nil => Seq::empty(),
        }
    }
}

pub struct List<T> {
    head: ListLink<T>,
}

impl<T> View for List<T> {
    type V = Seq<T>;

    closed spec fn view(&self) -> Seq<T> {
        self.head.to_seq()
    }
}

impl<T> List<T> {
    /// An empty list.
    pub fn new() -> (r: Self)
        ensures
            r@ == Seq::<T>::empty(),
    {
        List { head: ListLink::Nil }
    }

    /// Inserts `elem` in front of the first element.
    pub fn push(&mut self, elem: T)
        ensures
            final(self)@ == seq![elem].add(old(self)@),
    {
        let mut rest = ListLink::Nil;
        std::mem::swap(&mut self.head, &mut rest);
        self.head = ListLink::Cons(elem, Box::new(rest));
    }

    /// Removes and returns the first element.
    pub fn pop(&mut self) -> (r: Option<T>)
        ensures
            old(self)@.len() == 0 ==> r == None::<T> && final(self)@ == old(self)@,
            old(self)@.len() > 0 ==> r == Some(old(self)@[0]) && final(self)@ == old(
                self,
            )@.drop_first(),
    {
        let mut old_head = ListLink::Nil;
        std::mem::swap(&mut self.head, &mut old_head);
        match old_head {
            ListLink::Nil => None,
            ListLink::Cons(e, next) => {
                proof {
                    assert(old(self)@.drop_first() =~= next.to_seq());
                }
                self.head = *next;
                Some(e)
            },
        }
    }

    /// The first element, if any.
    pub fn peek(&self) -> (r: Option<&T>)
        ensures
            self@.len() == 0 ==> r == None::<&T>,
            self@.len() > 0 ==> r == Some(&self@[0]),
    {
        match &self.head {
            ListLink::Nil => None,
            ListLink::Cons(e, _) => Some(e),
        }
    }

    /// References to the elements, first one first.
    pub fn iter(&self) -> (r: Vec<&T>)
        ensures
            r@.len() == self@.len(),
            forall|i: int| 0 <= i < r@.len() ==> *(#[trigger] r@[i]) == self@[i],
    {
        let ghost all = self@;
        let mut out: Vec<&T> = Vec::new();
        let mut cur: &ListLink<T> = &self.head;
        loop
            invariant
                all == self@,
                out@.len() <= all.len(),
                forall|i: int| 0 <= i < out@.len() ==> *(#[trigger] out@[i]) == all[i],
                cur.to_seq() == all.skip(out@.len() as int),
            ensures
                out@.len() == all.len(),
                forall|i: int| 0 <= i < out@.len() ==> *(#[trigger] out@[i]) == all[i],
            decreases cur.to_seq().len(),
        {
            match cur {
                ListLink::Cons(e, next) => {
                    let ghost k = out@.len() as int;
                    assert(all.skip(k)[0] == all[k]);
                    assert(all.skip(k).drop_first() =~= all.skip(k + 1));
                    out.push(e);
                    cur = next;
                },
                ListLink::Nil => {
                    break;
                },
            }
        }
        out
    }

    /// Moves the first `n` elements (all of them, if there are fewer) into a
    /// new list, keeping their order.
    pub fn take(&mut self, n: usize) -> (r: List<T>)
        ensures
            n <= old(self)@.len() ==> r@ == old(self)@.take(n as int) && final(self)@ == old(
                self,
            )@.skip(n as int),
            n > old(self)@.len() ==> r@ == old(self)@ && final(self)@ == Seq::<T>::empty(),
    {
        let ghost orig = self@;
        let mut list: List<T> = List::new();
        let mut list_rev: List<T> = List::new();
        let mut k: usize = 0;
        let mut stop = false;
        while k < n && !stop
            invariant
                k <= n,
                k <= orig.len(),
                self@ == orig.skip(k as int),
                list@.len() == k,
                forall|j: int| 0 <= j < k ==> list@[j] == orig[k - 1 - j],
                stop ==> k == orig.len(),
            decreases n - k + (if stop {
                0int
            } else {
                1int
            }),
        {
            match self.pop() {
                None => {
                    stop = true;
                },
                Some(e) => {
                    proof {
                        assert(orig.skip(k as int).drop_first() =~= orig.skip(k + 1));
                    }
                    list.push(e);
                    k = k + 1;
                },
            }
        }
        let ghost taken = orig.take(k as int);
        let mut m: usize = 0;
        while m < k
            invariant
                m <= k,
                k <= orig.len(),
                list@.len() == k - m,
                forall|j: int| 0 <= j < k - m ==> list@[j] == orig[k - 1 - m - j],
                list_rev@.len() == m,
                forall|j: int| 0 <= j < m ==> list_rev@[j] == orig[k - m + j],
            decreases k - m,
        {
            match list.pop() {
                None => {
                    m = k;
                },
                Some(e) => {
                    list_rev.push(e);
                    m = m + 1;
                },
            }
        }
        assert(list_rev@ =~= taken);
        proof {
            if n > orig.len() {
                assert(taken =~= orig);
                assert(orig.skip(k as int) =~= Seq::<T>::empty());
            }
        }
        list_rev
    }
}

} // verus!
