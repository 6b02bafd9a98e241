use syncbox::latch::CountDownLatch;
use syncbox::named_node::Node;
use syncbox::ranking_barrier::RankingBarrier;
use syncbox::cyclic_barrier::{Arrival as Entry, CyclicBarrier};
use syncbox::delayed_queue::{DelayedQueue, Take};
use syncbox::exchanger::{Exchange, Exchanger};
use syncbox::execution_limiter::ExecutionLimiter;
use syncbox::joiner::Joiner;
use syncbox::semaphore::{BinarySemaphore, Semaphore};
use syncbox::synchronizer::{Arrival, Synchronizer};

#[test]
fn node_builder_and_text() {
    let mut node = Node::new("nodo".to_string()).size(10).count(5);
    assert_eq!(node.to_string(), "name:nodo size:10 count:5");
    node.grow();
    node.inc();
    assert_eq!(node.to_string(), "name:nodo size:11 count:6");
}

#[test]
fn binary_semaphore_single_permit() {
    let mut s = BinarySemaphore::new();
    assert!(s.acquire());
    assert!(!s.acquire());
    s.release();
    assert!(s.acquire());
}

#[test]
fn counting_semaphore_permits() {
    let mut s = Semaphore::new(2);
    assert!(s.acquire());
    assert!(s.acquire());
    assert!(!s.acquire());
    assert_eq!(s.available(), 0);
    s.release();
    assert_eq!(s.available(), 1);
    assert!(s.acquire());
}

#[test]
fn latch_opens_at_zero() {
    assert!(CountDownLatch::new(0).is_none());
    let mut l = CountDownLatch::new(2).unwrap();
    assert!(!l.await_ready());
    assert!(!l.countDown());
    assert!(l.countDown());
    assert!(l.await_ready());
    assert!(!l.countDown());
    assert!(l.await_ready());
}

#[test]
fn ranking_barrier_rounds() {
    assert!(RankingBarrier::new(1).is_none());
    let mut b = RankingBarrier::new(3).unwrap();
    for _round in 0..2 {
        assert_eq!(b.wait(), Some(1));
        assert!(!b.leave());
        assert_eq!(b.wait(), Some(2));
        assert_eq!(b.wait(), Some(3));
        assert_eq!(b.wait(), None);
        assert!(b.leave());
        // while the round is leaving nobody enters
        assert_eq!(b.wait(), None);
        assert!(b.leave());
        assert!(b.leave());
    }
}

#[test]
fn execution_limiter_admits_up_to_the_limit() {
    let mut l = ExecutionLimiter::new(2);
    assert!(l.enter());
    assert!(l.enter());
    assert!(!l.enter());
    l.exit();
    assert!(l.enter());
}

#[test]
fn exchanger_swaps_values() {
    let mut e: Exchanger<u32> = Exchanger::new();
    assert!(matches!(e.exchange(1), Exchange::Waiting));
    assert_eq!(e.collect(), None);
    assert!(matches!(e.exchange(2), Exchange::Swapped(1)));
    assert_eq!(e.collect(), Some(2));
    assert_eq!(e.collect(), None);
}

#[test]
fn delayed_queue_takes_earliest_expired() {
    let mut q = DelayedQueue::new();
    assert!(matches!(q.take(100), Take::Empty));
    q.offer('a', 30);
    q.offer('b', 10);
    q.offer('c', 10);
    assert_eq!(q.size(), 3);
    assert!(matches!(q.take(5), Take::Wait(10)));
    assert!(matches!(q.take(10), Take::Wait(10)));
    assert!(matches!(q.take(11), Take::Ready('b')));
    assert!(matches!(q.take(11), Take::Ready('c')));
    assert!(matches!(q.take(11), Take::Wait(30)));
    assert_eq!(q.size(), 1);
    assert!(matches!(q.take(31), Take::Ready('a')));
    assert_eq!(q.size(), 0);
}

#[test]
fn cyclic_barrier_round() {
    let mut b: CyclicBarrier<u32> = CyclicBarrier::new(3);
    assert!(matches!(b.arrive(1), Entry::Waiting));
    assert!(matches!(b.arrive(2), Entry::Waiting));
    assert!(!b.resume());
    assert!(matches!(b.arrive(3), Entry::Complete));
    assert_eq!(b.finish(), vec![1, 2, 3]);
    assert!(b.resume());
    assert_eq!(b.finish(), vec![1, 2, 3]);
    assert!(b.resume());
    assert_eq!(b.finish(), vec![1, 2, 3]);
    // the next round starts empty
    assert!(matches!(b.arrive(4), Entry::Waiting));
}

#[test]
fn cyclic_barrier_keeps_next_round_out_while_handing_out() {
    let mut b: CyclicBarrier<u32> = CyclicBarrier::new(2);
    assert!(matches!(b.arrive(1), Entry::Waiting));
    assert!(matches!(b.arrive(2), Entry::Complete));
    assert_eq!(b.finish(), vec![1, 2]);
    // the second thread comes back for the next round too early
    assert!(matches!(b.arrive(3), Entry::Busy(3)));
    assert!(b.resume());
    assert_eq!(b.finish(), vec![1, 2]);
    // now the barrier is empty and the early thread gets in
    assert!(matches!(b.arrive(3), Entry::Waiting));
    assert!(matches!(b.arrive(4), Entry::Complete));
    assert_eq!(b.finish(), vec![3, 4]);
}

#[test]
fn synchronizer_pairs_readings() {
    let mut s: Synchronizer<u32> = Synchronizer::new();
    assert!(matches!(s.data_from_first_port(1), Arrival::Waiting));
    assert_eq!(s.collect_second(), None);
    assert!(matches!(s.data_from_second_port(2), Arrival::Paired));
    assert_eq!(s.collect_second(), Some(2));
    // both ports are clear again
    assert!(matches!(s.data_from_second_port(3), Arrival::Waiting));
    assert!(matches!(s.data_from_first_port(4), Arrival::Paired));
    assert_eq!(s.collect_first(), Some(4));
    assert_eq!(s.collect_first(), None);
}

#[test]
fn joiner_groups_supplies() {
    let mut j: Joiner<u32> = Joiner::new(2);
    assert!(j.supply(1, 10));
    assert_eq!(j.collect(), None);
    assert!(j.supply(2, 20));
    assert!(!j.supply(3, 30));
    assert_eq!(j.collect(), Some(vec![(1, 10), (2, 20)]));
    // the group is leaving: nobody enters
    assert!(!j.supply(3, 30));
    assert_eq!(j.collect(), Some(vec![(1, 10), (2, 20)]));
    // next group, with a repeated key
    assert!(j.supply(5, 1));
    assert!(j.supply(5, 2));
    assert_eq!(j.collect(), Some(vec![(5, 2)]));
}
