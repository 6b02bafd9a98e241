//! A singly linked stack of boxed nodes, each pointing to an optional next
//! node.

use vstd::prelude::*;

verus! {

pub struct Node<T> {
    elem: T,
    next: Option<Box<Node<T>>>,
}

/// The elements from `link` to the end, first one first.
pub closed spec fn link_seq<T>(link: Option<Box<Node<T>>>) -> Seq<T>
    decreases link,
{
    match link {
        Some(node) => seq![node.elem].add(link_seq(node.next)),
        None => Seq::empty(),
    }
}

impl<T> View for Node<T> {
    type V = Seq<T>;

    /// The elements from this node to the end of its chain.
    closed spec fn view(&self) -> Seq<T> {
        seq![self.elem].add(link_seq(self.next))
    }
}

impl<T> Node<T> {
    /// A node holding `elem` and linked to nothing.
    pub fn new(elem: T) -> (r: Self)
        ensures
            r@ == seq![elem],
    {
        proof {
            assert(seq![elem].add(link_seq(None::<Box<Node<T>>>)) =~= seq![elem]);
        }
        Node { elem, next: None }
    }
}

pub struct List<T> {
    head: Option<Box<Node<T>>>,
}

impl<T> View for List<T> {
    type V = Seq<T>;

    closed spec fn view(&self) -> Seq<T> {
        link_seq(self.head)
    }
}

impl<T> List<T> {
    /// An empty list.
    pub fn new() -> (r: Self)
        ensures
            r@ == Seq::<T>::empty(),
    {
        List { head: None }
    }

    /// Inserts `elem` in front of the first element.
    pub fn push(&mut self, elem: T)
        ensures
            final(self)@ == seq![elem].add(old(self)@),
    {
        let rest = self.head.take();
        self.head = Some(Box::new(Node { elem, next: rest }));
    }

    /// Removes and returns the first element.
    pub fn pop(&mut self) -> (r: Option<T>)
        ensures
            old(self)@.len() == 0 ==> r == None::<T> && final(self)@ == old(self)@,
            old(self)@.len() > 0 ==> r == Some(old(self)@[0]) && final(self)@ == old(
                self,
            )@.drop_first(),
    {
        match self.head.take() {
            None => None,
            Some(node) => {
                let node = *node;
                proof {
                    assert(old(self)@.drop_first() =~= link_seq(node.next));
                }
                self.head = node.next;
                Some(node.elem)
            },
        }
    }

    /// The first element, if any.
    pub fn peek(&self) -> (r: Option<&T>)
        ensures
            self@.len() == 0 ==> r == None::<&T>,
            self@.len() > 0 ==> r == Some(&self@[0]),
    {
        match &self.head {
            None => None,
            Some(node) => Some(&node.elem),
        }
    }

    /// References to the elements, first one first.
    pub fn iter(&self) -> (r: Vec<&T>)
        ensures
            r@.len() == self@.len(),
            forall|i: int| 0 <= i < r@.len() ==> *(#[trigger] r@[i]) == self@[i],
    {
        let ghost all = self@;
        let mut out: Vec<&T> = Vec::new();
        let mut cur: &Option<Box<Node<T>>> = &self.head;
        loop
            invariant
                all == self@,
                out@.len() <= all.len(),
                forall|i: int| 0 <= i < out@.len() ==> *(#[trigger] out@[i]) == all[i],
                link_seq(*cur) == all.skip(out@.len() as int),
            ensures
                out@.len() == all.len(),
                forall|i: int| 0 <= i < out@.len() ==> *(#[trigger] out@[i]) == all[i],
            decreases link_seq(*cur).len(),
        {
            match cur {
                Some(node) => {
                    let ghost k = out@.len() as int;
                    assert(all.skip(k)[0] == all[k]);
                    assert(all.skip(k).drop_first() =~= all.skip(k + 1));
                    out.push(&node.elem);
                    cur = &node.next;
                },
                None => {
                    break;
                },
            }
        }
        out
    }

    /// Moves the first `n` elements (all of them, if there are fewer) into a
    /// new list, keeping their order.
    pub fn take(&mut self, n: usize) -> (r: List<T>)
        ensures
            n <= old(self)@.len() ==> r@ == old(self)@.take(n as int) && final(self)@ == old(
                self,
            )@.skip(n as int),
            n > old(self)@.len() ==> r@ == old(self)@ && final(self)@ == Seq::<T>::empty(),
    {
        let ghost orig = self@;
        let mut list: List<T> = List::new();
        let mut list_rev: List<T> = List::new();
        let mut k: usize = 0;
        let mut stop = false;
        while k < n && !stop
            invariant
                k <= n,
                k <= orig.len(),
                self@ == orig.skip(k as int),
                list@.len() == k,
                forall|j: int| 0 <= j < k ==> list@[j] == orig[k - 1 - j],
                stop ==> k == orig.len(),
            decreases n - k + (if stop {
                0int
            } else {
                1int
            }),
        {
            match self.pop() {
                None => {
                    stop = true;
                },
                Some(e) => {
                    proof {
                        assert(orig.skip(k as int).drop_first() =~= orig.skip(k + 1));
                    }
                    list.push(e);
                    k = k + 1;
                },
            }
        }
        let ghost taken = orig.take(k as int);
        let mut m: usize = 0;
        while m < k
            invariant
                m <= k,
                k <= orig.len(),
                list@.len() == k - m,
                forall|j: int| 0 <= j < k - m ==> list@[j] == orig[k - 1 - m - j],
                list_rev@.len() == m,
                forall|j: int| 0 <= j < m ==> list_rev@[j] == orig[k - m + j],
            decreases k - m,
        {
            match list.pop() {
                None => {
                    m = k;
                },
                Some(e) => {
                    list_rev.push(e);
                    m = m + 1;
                },
            }
        }
        assert(list_rev@ =~= taken);
        proof {
            if n > orig.len() {
                assert(taken =~= orig);
                assert(orig.skip(k as int) =~= Seq::<T>::empty());
            }
        }
        list_rev
    }
}

} // verus!
