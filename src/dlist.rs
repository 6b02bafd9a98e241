//! A doubly linked list: elements can be added and removed at both ends.
//!
//! The nodes live in a vector of slots and link to each other by slot
//! number, in both directions. A slot is emptied when its node leaves the
//! list.

use vstd::prelude::*;

verus! {

/// A node: an element with the slots of its neighbours.
pub struct DNode<T> {
    elem: T,
    prev: Option<usize>,
    next: Option<usize>,
}

impl<T> DNode<T> {
    pub closed spec fn spec_elem(&self) -> T {
        self.elem
    }

    pub closed spec fn spec_prev(&self) -> Option<usize> {
        self.prev
    }

    pub closed spec fn spec_next(&self) -> Option<usize> {
        self.next
    }

    /// A node with no neighbours.
    pub fn new(elem: T) -> (r: Self)
        ensures
            r.spec_elem() == elem,
            r.spec_prev() is None,
            r.spec_next() is None,
    {
        DNode { elem, prev: None, next: None }
    }

    /// A node with a neighbour before it only.
    pub fn with_prev(elem: T, prev: Option<usize>) -> (r: Self)
        ensures
            r.spec_elem() == elem,
            r.spec_prev() == prev,
            r.spec_next() is None,
    {
        DNode { elem, prev, next: None }
    }

    /// A node with a neighbour after it only.
    pub fn with_next(elem: T, next: Option<usize>) -> (r: Self)
        ensures
            r.spec_elem() == elem,
            r.spec_prev() is None,
            r.spec_next() == next,
    {
        DNode { elem, prev: None, next }
    }

    /// A node with both neighbours given.
    pub fn full_link(elem: T, prev: Option<usize>, next: Option<usize>) -> (r: Self)
        ensures
            r.spec_elem() == elem,
            r.spec_prev() == prev,
            r.spec_next() == next,
    {
        DNode { elem, prev, next }
    }
}

pub struct DList<T> {
    nodes: Vec<Option<DNode<T>>>,
    head: Option<usize>,
    tail: Option<usize>,
    len: usize,
    /// The slots of the list's nodes, from front to back.
    order: Ghost<Seq<usize>>,
}

impl<T> DList<T> {
    spec fn node(&self, i: int) -> DNode<T> {
        self.nodes@[i]->0
    }

    spec fn prev_of(order: Seq<usize>, k: int) -> Option<usize> {
        if k == 0 {
            None
        } else {
            Some(order[k - 1])
        }
    }

    spec fn next_of(order: Seq<usize>, k: int) -> Option<usize> {
        if k == order.len() - 1 {
            None
        } else {
            Some(order[k + 1])
        }
    }

    /// The slots in `order` hold the nodes of the list, each linked to the
    /// slots before and after it, and nothing else is linked.
    pub closed spec fn wf(&self) -> bool {
        let order = self.order@;
        &&& self.len == order.len()
        &&& forall|k: int|
            0 <= k < order.len() ==> (#[trigger] order[k]) < self.nodes@.len()
                && self.nodes@[order[k] as int] is Some
        &&& forall|k1: int, k2: int|
            0 <= k1 < order.len() && 0 <= k2 < order.len() && k1 != k2 ==> #[trigger] order[k1]
                != #[trigger] order[k2]
        &&& self.head == (if order.len() == 0 {
            None
        } else {
            Some(order[0])
        })
        &&& self.tail == (if order.len() == 0 {
            None
        } else {
            Some(order.last())
        })
        &&& forall|k: int|
            0 <= k < order.len() ==> self.node(#[trigger] order[k] as int).prev == Self::prev_of(
                order,
                k,
            ) && self.node(order[k] as int).next == Self::next_of(order, k)
    }

    /// The elements from front to back.
    pub closed spec fn view(&self) -> Seq<T> {
        Seq::new(self.order@.len(), |k: int| self.node(self.order@[k] as int).elem)
    }

    /// An empty list.
    pub fn new() -> (r: Self)
        ensures
            r.wf(),
            r.view() == Seq::<T>::empty(),
    {
        let r = DList { nodes: Vec::new(), head: None, tail: None, len: 0, order: Ghost(Seq::empty()) };
        assert(r.view() =~= Seq::<T>::empty());
        r
    }

    /// Number of elements.
    pub fn len(&self) -> (r: usize)
        requires
            self.wf(),
        ensures
            r == self.view().len(),
    {
        self.len
    }

    fn set_links(&mut self, i: usize, prev: Option<usize>, next: Option<usize>)
        requires
            i < old(self).nodes@.len(),
            old(self).nodes@[i as int] is Some,
        ensures
            final(self).nodes@ == old(self).nodes@.update(
                i as int,
                Some(DNode { prev, next, ..old(self).node(i as int) }),
            ),
            final(self).head == old(self).head,
            final(self).tail == old(self).tail,
            final(self).len == old(self).len,
            final(self).order == old(self).order,
    {
        let mut slot: Option<DNode<T>> = None;
        self.nodes.set_and_swap(i, &mut slot);
        match slot {
            Some(node) => {
                self.nodes.set(i, Some(DNode { elem: node.elem, prev, next }));
            },
            None => {},
        }
    }

    fn links(&self, i: usize) -> (r: (Option<usize>, Option<usize>))
        requires
            i < self.nodes@.len(),
            self.nodes@[i as int] is Some,
        ensures
            r == (self.node(i as int).prev, self.node(i as int).next),
    {
        match &self.nodes[i] {
            Some(node) => (node.prev, node.next),
            None => (None, None),
        }
    }

    fn take_node(&mut self, i: usize) -> (r: DNode<T>)
        requires
            i < old(self).nodes@.len(),
            old(self).nodes@[i as int] is Some,
        ensures
            r == old(self).node(i as int),
            final(self).nodes@ == old(self).nodes@.update(i as int, None),
            final(self).head == old(self).head,
            final(self).tail == old(self).tail,
            final(self).len == old(self).len,
            final(self).order == old(self).order,
    {
        let mut slot: Option<DNode<T>> = None;
        self.nodes.set_and_swap(i, &mut slot);
        slot.unwrap()
    }

    /// Inserts `elem` before the first element.
    pub fn push_front(&mut self, elem: T)
        requires
            old(self).wf(),
            old(self).view().len() < usize::MAX,
        ensures
            final(self).wf(),
            final(self).view() == seq![elem].add(old(self).view()),
    {
        let idx = self.nodes.len();
        let ghost old_order = self.order@;
        self.nodes.push(Some(DNode::with_next(elem, self.head)));
        match self.head {
            Some(h) => {
                let (_, h_next) = self.links(h);
                self.set_links(h, Some(idx), h_next);
            },
            None => {
                self.tail = Some(idx);
            },
        }
        self.head = Some(idx);
        self.len = self.len + 1;
        self.order = Ghost(seq![idx].add(old_order));
        proof {
            let order = self.order@;
            assert forall|k: int| 0 < k < order.len() implies order[k] == old_order[k - 1] by {}
            assert forall|k: int| 0 <= k < old_order.len() implies old_order[k] != idx by {}
        }
        assert(self.view() =~= seq![elem].add(old(self).view()));
    }

    /// Inserts `elem` after the last element.
    pub fn push_back(&mut self, elem: T)
        requires
            old(self).wf(),
            old(self).view().len() < usize::MAX,
        ensures
            final(self).wf(),
            final(self).view() == old(self).view().push(elem),
    {
        let idx = self.nodes.len();
        let ghost old_order = self.order@;
        self.nodes.push(Some(DNode::with_prev(elem, self.tail)));
        match self.tail {
            Some(t) => {
                let (t_prev, _) = self.links(t);
                self.set_links(t, t_prev, Some(idx));
            },
            None => {
                self.head = Some(idx);
            },
        }
        self.tail = Some(idx);
        self.len = self.len + 1;
        self.order = Ghost(old_order.push(idx));
        proof {
            assert forall|k: int| 0 <= k < old_order.len() implies old_order[k] != idx by {}
        }
        assert(self.view() =~= old(self).view().push(elem));
    }

    /// Removes and returns the first element.
    pub fn pop_front(&mut self) -> (r: Option<T>)
        requires
            old(self).wf(),
        ensures
            final(self).wf(),
            old(self).view().len() == 0 ==> r == None::<T> && final(self).view() == old(
                self,
            ).view(),
            old(self).view().len() > 0 ==> r == Some(old(self).view()[0]) && final(self).view()
                == old(self).view().drop_first(),
    {
        match self.head {
            None => None,
            Some(h) => {
                let ghost old_order = self.order@;
                let node = self.take_node(h);
                match node.next {
                    Some(nx) => {
                        assert(old_order[1] == nx);
                        let (_, nx_next) = self.links(nx);
                        self.set_links(nx, None, nx_next);
                        self.head = Some(nx);
                    },
                    None => {
                        self.head = None;
                        self.tail = None;
                    },
                }
                self.len = self.len - 1;
                self.order = Ghost(old_order.drop_first());
                proof {
                    let order = self.order@;
                    assert forall|k: int| 0 <= k < order.len() implies order[k] == old_order[k + 1]
                        && order[k] != h by {
                        assert(old_order[0] == h);
                    }
                }
                assert(self.view() =~= old(self).view().drop_first());
                Some(node.elem)
            },
        }
    }

    /// Removes and returns the last element.
    pub fn pop_back(&mut self) -> (r: Option<T>)
        requires
            old(self).wf(),
        ensures
            final(self).wf(),
            old(self).view().len() == 0 ==> r == None::<T> && final(self).view() == old(
                self,
            ).view(),
            old(self).view().len() > 0 ==> r == Some(old(self).view().last()) && final(self).view() == old(self).view().drop_last(),
    {
        match self.tail {
            None => None,
            Some(t) => {
                let ghost old_order = self.order@;
                let node = self.take_node(t);
                match node.prev {
                    Some(pv) => {
                        assert(old_order[old_order.len() - 2] == pv);
                        let (pv_prev, _) = self.links(pv);
                        self.set_links(pv, pv_prev, None);
                        self.tail = Some(pv);
                    },
                    None => {
                        self.head = None;
                        self.tail = None;
                    },
                }
                self.len = self.len - 1;
                self.order = Ghost(old_order.drop_last());
                proof {
                    let order = self.order@;
                    assert forall|k: int| 0 <= k < order.len() implies order[k] == old_order[k]
                        && order[k] != t by {
                        assert(old_order.last() == t);
                    }
                }
                assert(self.view() =~= old(self).view().drop_last());
                Some(node.elem)
            },
        }
    }

    /// Removes and returns the element at position `n` from the front,
    /// leaving the others in order; with fewer than `n + 1` elements nothing
    /// changes.
    pub fn popn(&mut self, n: usize) -> (r: Option<T>)
        requires
            old(self).wf(),
        ensures
            final(self).wf(),
            n >= old(self).view().len() ==> r == None::<T> && final(self).view() == old(
                self,
            ).view(),
            n < old(self).view().len() ==> r == Some(old(self).view()[n as int]) && final(self).view()
                == old(self).view().remove(n as int),
    {
        if n >= self.len {
            return None;
        }
        if n == 0 {
            assert(old(self).view().remove(0) =~= old(self).view().drop_first());
            return self.pop_front();
        }
        if n == self.len - 1 {
            assert(old(self).view().remove(n as int) =~= old(self).view().drop_last());
            return self.pop_back();
        }
        Some(self.remove_middle(n))
    }

    /// The slot of the node at position `n`.
    fn slot_at(&self, n: usize) -> (r: usize)
        requires
            self.wf(),
            n < self.order@.len(),
        ensures
            r == self.order@[n as int],
    {
        let mut cur: usize = match self.head {
            Some(h) => h,
            None => 0,
        };
        let mut i: usize = 0;
        while i < n
            invariant
                self.wf(),
                i <= n,
                n < self.order@.len(),
                cur == self.order@[i as int],
            decreases n - i,
        {
            let (_, next) = self.links(cur);
            cur = match next {
                Some(x) => x,
                None => cur,
            };
            i = i + 1;
        }
        cur
    }

    /// Unlinks the node at position `n`, which has neighbours on both
    /// sides, and returns its element.
    #[verifier::rlimit(60)]
    fn remove_middle(&mut self, n: usize) -> (r: T)
        requires
            old(self).wf(),
            0 < n,
            n + 1 < old(self).view().len(),
        ensures
            final(self).wf(),
            r == old(self).view()[n as int],
            final(self).view() == old(self).view().remove(n as int),
    {
        let ghost order = self.order@;
        let cur = self.slot_at(n);
        let (pv, nx) = self.links(cur);
        let p = match pv {
            Some(p) => p,
            None => cur,
        };
        let x = match nx {
            Some(x) => x,
            None => cur,
        };
        assert(p == order[n - 1]);
        assert(x == order[n + 1]);
        let (p_prev, _) = self.links(p);
        self.set_links(p, p_prev, Some(x));
        let (_, x_next) = self.links(x);
        self.set_links(x, Some(p), x_next);
        let node = self.take_node(cur);
        self.len = self.len - 1;
        let ghost new_order = order.remove(n as int);
        self.order = Ghost(new_order);
        proof {
            assert forall|k: int| 0 <= k < new_order.len() implies new_order[k] == (if k < n {
                order[k]
            } else {
                order[k + 1]
            }) by {}
            assert forall|k: int| 0 <= k < new_order.len() implies #[trigger] new_order[k]
                < self.nodes@.len() && self.nodes@[new_order[k] as int] is Some by {
                let j = if k < n { k } else { k + 1 };
                assert(order[j] != cur);
            }
            assert forall|k: int|
                0 <= k < new_order.len() implies self.node(#[trigger] new_order[k] as int).prev
                == Self::prev_of(new_order, k) && self.node(new_order[k] as int).next
                == Self::next_of(new_order, k) by {
                if k < n - 1 {
                    assert(order[k] != p && order[k] != x && order[k] != cur);
                } else if k == n - 1 {
                } else if k == n {
                    assert(new_order[k] == x);
                } else {
                    assert(order[k + 1] != p && order[k + 1] != x && order[k + 1] != cur);
                }
            }
        }
        assert(self.view() =~= old(self).view().remove(n as int));
        node.elem
    }
}

} // verus!
