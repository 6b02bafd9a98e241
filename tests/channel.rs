use syncbox::channel::{MpMcChannel, RecvResult, SendResult};

fn value_of(r: RecvResult<char>) -> Option<char> {
    match r {
        RecvResult::Value(v) => Some(v),
        _ => None,
    }
}

#[test]
fn capacity_two_scenario() {
    let mut ch: MpMcChannel<char> = MpMcChannel::new(2);
    assert!(matches!(ch.send('A'), SendResult::Accepted));
    assert!(matches!(ch.send('B'), SendResult::Accepted));
    // a third send has to wait: the buffer is full
    let blocked = ch.send('C');
    assert!(matches!(blocked, SendResult::Full('C')));
    assert_eq!(ch.len(), 2);

    assert_eq!(value_of(ch.recv()), Some('A'));
    // the waiting sender runs its step again and gets in
    assert!(matches!(ch.send('C'), SendResult::Accepted));

    assert_eq!(value_of(ch.recv()), Some('B'));
    assert_eq!(value_of(ch.recv()), Some('C'));

    assert_eq!(ch.shutdown(), Some(()));
    assert!(matches!(ch.send('D'), SendResult::Closed));
    assert!(matches!(ch.recv(), RecvResult::ClosedAndEmpty));
}

#[test]
fn buffered_value_survives_shutdown() {
    let mut ch: MpMcChannel<char> = MpMcChannel::new(1);
    assert!(matches!(ch.send('X'), SendResult::Accepted));
    assert_eq!(ch.shutdown(), Some(()));
    assert_eq!(value_of(ch.recv()), Some('X'));
    assert!(matches!(ch.recv(), RecvResult::ClosedAndEmpty));
}

#[test]
fn capacity_never_exceeded() {
    let mut ch: MpMcChannel<u32> = MpMcChannel::new(3);
    for i in 0..10u32 {
        let _ = ch.send(i);
        assert!(ch.len() <= ch.capacity());
    }
    assert_eq!(ch.len(), 3);
}

#[test]
fn shutdown_keeps_every_buffered_value_in_order() {
    let mut ch: MpMcChannel<u32> = MpMcChannel::new(4);
    for i in 0..4u32 {
        assert!(matches!(ch.send(i), SendResult::Accepted));
    }
    assert!(matches!(ch.recv(), RecvResult::Value(0)));
    ch.shutdown();
    assert!(matches!(ch.send(9), SendResult::Closed));
    assert!(matches!(ch.recv(), RecvResult::Value(1)));
    assert!(matches!(ch.recv(), RecvResult::Value(2)));
    assert!(matches!(ch.recv(), RecvResult::Value(3)));
    assert!(matches!(ch.recv(), RecvResult::ClosedAndEmpty));
}

#[test]
fn shutdown_twice_is_like_once() {
    let mut ch: MpMcChannel<u32> = MpMcChannel::new(2);
    let _ = ch.send(5);
    assert_eq!(ch.shutdown(), Some(()));
    assert_eq!(ch.shutdown(), Some(()));
    assert!(!ch.is_open());
    assert_eq!(ch.len(), 1);
    assert!(matches!(ch.recv(), RecvResult::Value(5)));
}

#[test]
fn closed_and_drained_rejects_everything() {
    let mut ch: MpMcChannel<u32> = MpMcChannel::new(2);
    ch.shutdown();
    for i in 0..5u32 {
        assert!(matches!(ch.send(i), SendResult::Closed));
        assert!(matches!(ch.recv(), RecvResult::ClosedAndEmpty));
    }
    assert_eq!(ch.len(), 0);
}

#[test]
fn waiting_steps_stop_waiting_after_shutdown() {
    let mut full: MpMcChannel<u32> = MpMcChannel::new(1);
    let _ = full.send(1);
    assert!(matches!(full.send(2), SendResult::Full(2)));
    full.shutdown();
    assert!(matches!(full.send(2), SendResult::Closed));

    let mut empty: MpMcChannel<u32> = MpMcChannel::new(1);
    assert!(matches!(empty.recv(), RecvResult::Empty));
    empty.shutdown();
    assert!(matches!(empty.recv(), RecvResult::ClosedAndEmpty));
}
