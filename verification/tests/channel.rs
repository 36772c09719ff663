//! The single-threaded channel.

use chip8::mpsc::{channel, ReceiveError};

#[test]
fn values_arrive_in_send_order() {
    let (tx, mut rx) = channel();
    tx.send(1).unwrap();
    tx.send(2).unwrap();
    tx.send(3).unwrap();
    assert_eq!(rx.recv().unwrap(), 1);
    assert_eq!(rx.recv().unwrap(), 2);
    assert_eq!(rx.recv().unwrap(), 3);
    assert!(matches!(rx.recv(), Err(ReceiveError::Empty)));
}

#[test]
fn cloned_senders_share_the_channel() {
    let (tx, mut rx) = channel();
    let tx2 = tx.clone();
    assert!(tx.same_channel(&tx2));
    tx.send("a").unwrap();
    tx2.send("b").unwrap();
    assert_eq!(rx.recv().unwrap(), "a");
    assert_eq!(rx.recv().unwrap(), "b");

    let (other, _other_rx) = channel::<&str>();
    assert!(!tx.same_channel(&other));
}

#[test]
fn closing_fails_later_sends_and_drains_the_queue() {
    let (tx, mut rx) = channel();
    tx.send(10).unwrap();
    rx.close();
    assert!(tx.is_closed());
    let e = tx.send(11).unwrap_err();
    assert_eq!(e.value, 11);
    // what was queued before closing can still be taken
    assert_eq!(rx.recv().unwrap(), 10);
    assert!(matches!(rx.recv(), Err(ReceiveError::Closed)));
}

#[test]
fn dropping_the_receiver_closes_the_channel() {
    let (tx, rx) = channel::<i32>();
    drop(rx);
    assert!(tx.is_closed());
    assert!(tx.send(1).is_err());
}

#[test]
fn dropping_every_sender_closes_the_channel() {
    let (tx, mut rx) = channel::<i32>();
    tx.send(7).unwrap();
    drop(tx);
    // with no sender left the channel reports closed, even before draining
    assert!(matches!(rx.recv(), Err(ReceiveError::Closed)));
}
