use syncbox::cons_list;
use syncbox::dlist::{DList, DNode};
use syncbox::node_list;

#[test]
fn cons_list_push_pop_peek() {
    let mut l = cons_list::List::new();
    assert_eq!(l.pop(), None);
    assert_eq!(l.peek(), None);
    l.push(1);
    l.push(2);
    l.push(3);
    assert_eq!(l.peek(), Some(&3));
    assert_eq!(l.pop(), Some(3));
    assert_eq!(l.pop(), Some(2));
    assert_eq!(l.pop(), Some(1));
    assert_eq!(l.pop(), None);
}

#[test]
fn cons_list_take_keeps_order() {
    let mut l = cons_list::List::new();
    for i in 0..5 {
        l.push(i);
    }
    let mut first = l.take(2);
    assert_eq!(first.pop(), Some(4));
    assert_eq!(first.pop(), Some(3));
    assert_eq!(first.pop(), None);
    assert_eq!(l.pop(), Some(2));
    let mut rest = l.take(10);
    assert_eq!(rest.pop(), Some(1));
    assert_eq!(rest.pop(), Some(0));
    assert_eq!(rest.pop(), None);
    assert_eq!(l.pop(), None);
}

#[test]
fn node_list_push_pop_peek_take() {
    let _single = node_list::Node::new(7);
    let mut l = node_list::List::new();
    l.push('a');
    l.push('b');
    l.push('c');
    assert_eq!(l.peek(), Some(&'c'));
    let mut t = l.take(2);
    assert_eq!(t.pop(), Some('c'));
    assert_eq!(t.pop(), Some('b'));
    assert_eq!(t.pop(), None);
    assert_eq!(l.pop(), Some('a'));
    assert_eq!(l.pop(), None);
}

#[test]
fn dlist_both_ends() {
    let mut d = DList::new();
    assert_eq!(d.pop_front(), None);
    assert_eq!(d.pop_back(), None);
    d.push_back(2);
    d.push_front(1);
    d.push_back(3);
    assert_eq!(d.len(), 3);
    assert_eq!(d.pop_back(), Some(3));
    assert_eq!(d.pop_front(), Some(1));
    assert_eq!(d.pop_front(), Some(2));
    assert_eq!(d.pop_front(), None);
}

#[test]
fn dlist_popn() {
    let mut d = DList::new();
    for i in 0..5 {
        d.push_back(i);
    }
    assert_eq!(d.popn(5), None);
    assert_eq!(d.len(), 5);
    assert_eq!(d.popn(2), Some(2));
    assert_eq!(d.popn(0), Some(0));
    assert_eq!(d.pop_front(), Some(1));
    assert_eq!(d.pop_front(), Some(3));
    assert_eq!(d.pop_front(), Some(4));
}

#[test]
fn lists_iterate_front_to_back() {
    let mut a = cons_list::List::new();
    let mut b = node_list::List::new();
    for i in 0..4 {
        a.push(i);
        b.push(i);
    }
    assert_eq!(a.iter(), vec![&3, &2, &1, &0]);
    assert_eq!(b.iter(), vec![&3, &2, &1, &0]);
    assert!(cons_list::List::<u8>::new().iter().is_empty());
}

#[test]
fn dlist_mixed_operations() {
    let _a = DNode::new(1);
    let _b = DNode::with_prev(2, Some(0));
    let _c = DNode::with_next(3, None);
    let _d = DNode::full_link(4, Some(1), Some(2));
    let mut d = DList::new();
    d.push_back('b');
    d.push_front('a');
    d.push_back('c');
    d.push_back('d');
    assert_eq!(d.popn(1), Some('b'));
    assert_eq!(d.popn(1), Some('c'));
    d.push_front('z');
    d.push_back('e');
    assert_eq!(d.len(), 4);
    assert_eq!(d.popn(3), Some('e'));
    assert_eq!(d.pop_back(), Some('d'));
    assert_eq!(d.pop_front(), Some('z'));
    assert_eq!(d.pop_front(), Some('a'));
    assert_eq!(d.pop_back(), None);
    d.push_back('x');
    assert_eq!(d.pop_back(), Some('x'));
}
