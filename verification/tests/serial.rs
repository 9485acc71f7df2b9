use std::cell::RefCell;

use stuck::channel::serial;
use stuck::channel::serial::{bounded, unbounded, Channel, Receiver, Receiving, Sender, Sending, Wakeup};
use stuck::channel::{SendError, TryRecvError, TrySendError};
use stuck::select;
use stuck::select::{Branch, Identifier, Permit, Selector, TrySelectError};

type W = u32;

fn nobody(_: W, _: Wakeup) -> bool {
    panic!("nobody waits")
}

fn recv<T>(receiver: &mut Receiver, channel: &mut Channel<T, W>) -> Option<T> {
    match receiver.recv(channel, &nobody) {
        Receiving::Done(value) => value,
        Receiving::Wait => panic!("would block"),
    }
}

fn send<T>(sender: &mut Sender, channel: &mut Channel<T, W>, value: T) -> Result<(), SendError<T>> {
    match sender.send(channel, value, &nobody) {
        Sending::Done(result) => result,
        Sending::Wait { .. } => panic!("would block"),
    }
}

fn selection(permit: Result<Permit, TrySelectError>) -> Option<(usize, Permit)> {
    match permit {
        Ok(permit) => Some((0, permit)),
        Err(TrySelectError::Completed) => None,
        Err(TrySelectError::WouldBlock) => panic!("would block"),
    }
}

fn select_recv<T>(receiver: &mut Receiver, channel: &mut Channel<T, W>) -> Option<Option<T>> {
    match select::branch(selection(receiver.select_permit(channel)), true) {
        Branch::Case { permit, .. } => Some(receiver.consume_permit(channel, permit, &nobody)),
        Branch::Complete => None,
        _ => panic!("no such case"),
    }
}

fn select_send<T>(sender: &mut Sender, channel: &mut Channel<T, W>, value: T) -> Option<Result<(), SendError<T>>> {
    match select::branch(selection(sender.select_permit(channel)), true) {
        Branch::Case { permit, .. } => Some(sender.consume_permit(channel, permit, value, &nobody)),
        Branch::Complete => None,
        _ => panic!("no such case"),
    }
}

#[test]
fn completed() {
    let (mut channel, _, _) = bounded::<(), W>(1);
    let (mut sender, mut receiver) = serial::completed();
    assert_eq!(receiver.try_recv(&mut channel, &nobody), Err(TryRecvError::Closed));
    assert_eq!(recv(&mut receiver, &mut channel), None);

    assert_eq!(send(&mut sender, &mut channel, ()), Err(SendError::Closed(())));
    assert_eq!(sender.try_send(&mut channel, (), &nobody), Err(TrySendError::Closed(())));

    assert!(sender.is_closed());
    assert!(receiver.is_drained());
    assert_eq!(select_recv(&mut receiver, &mut channel), None);
    assert_eq!(select_send(&mut sender, &mut channel, ()), None);
}

#[test]
fn serial_receiver_into_iter() {
    let (mut channel, mut sender, mut receiver) = bounded(3);
    send(&mut sender, &mut channel, 1).unwrap();
    send(&mut sender, &mut channel, 2).unwrap();
    send(&mut sender, &mut channel, 3).unwrap();
    sender.close(&mut channel, &nobody);

    let mut iter = std::iter::from_fn(|| recv(&mut receiver, &mut channel));
    assert_eq!(iter.next(), Some(1));
    assert_eq!(iter.next(), Some(2));
    assert_eq!(iter.next(), Some(3));
    assert_eq!(iter.next(), None);
    assert_eq!(iter.next(), None);
}

fn series_send(mut channel: Channel<i32, W>, mut sender: Sender, mut receiver: Receiver) {
    send(&mut sender, &mut channel, 1).unwrap();
    send(&mut sender, &mut channel, 2).unwrap();
    assert_eq!(1, recv(&mut receiver, &mut channel).unwrap());
    assert_eq!(2, recv(&mut receiver, &mut channel).unwrap());
    receiver.terminate(&mut channel, &nobody);

    assert_eq!(send(&mut sender, &mut channel, 3).unwrap_err(), SendError::Closed(3));
    assert_eq!(sender.try_send(&mut channel, 6, &nobody).unwrap_err(), TrySendError::Closed(6));
}

#[test]
fn serial_bounded_send() {
    let (channel, sender, receiver) = bounded(2);
    series_send(channel, sender, receiver);
}

#[test]
fn serial_unbounded_send() {
    let (channel, sender, receiver) = unbounded(2);
    series_send(channel, sender, receiver);
}

#[test]
fn serial_bounded_try_send_full() {
    let (mut channel, mut sender, mut receiver) = bounded(2);
    sender.try_send(&mut channel, 1, &nobody).unwrap();
    sender.try_send(&mut channel, 2, &nobody).unwrap();
    assert_eq!(sender.try_send(&mut channel, 3, &nobody).unwrap_err(), TrySendError::Full(3));
    sender.close(&mut channel, &nobody);
    assert_eq!(1, recv(&mut receiver, &mut channel).unwrap());
    assert_eq!(2, recv(&mut receiver, &mut channel).unwrap());
    assert_eq!(None, recv(&mut receiver, &mut channel));
}

#[test]
fn serial_unbounded_try_send() {
    let (mut channel, mut sender, mut receiver) = unbounded(1);
    sender.try_send(&mut channel, 1, &nobody).unwrap();
    sender.try_send(&mut channel, 2, &nobody).unwrap();
    sender.try_send(&mut channel, 3, &nobody).unwrap();
    sender.close(&mut channel, &nobody);
    assert_eq!(1, recv(&mut receiver, &mut channel).unwrap());
    assert_eq!(2, recv(&mut receiver, &mut channel).unwrap());
    assert_eq!(3, recv(&mut receiver, &mut channel).unwrap());
    assert_eq!(None, recv(&mut receiver, &mut channel));
}

#[test]
fn serial_bounded_blocking() {
    let (mut channel, mut sender, mut receiver) = bounded(5);
    for value in 1..=5 {
        send(&mut sender, &mut channel, value).unwrap();
    }
    let value = match sender.send(&mut channel, 6, &nobody) {
        Sending::Wait { value } => value,
        Sending::Done(_) => panic!("should block"),
    };
    channel.queue_sender(60);
    let woken = RefCell::new(Vec::new());
    let wake = |waker: W, wakeup: Wakeup| {
        assert!(matches!(wakeup, Wakeup::Resume));
        woken.borrow_mut().push(waker);
        true
    };
    match receiver.recv(&mut channel, &wake) {
        Receiving::Done(value) => assert_eq!(value, Some(1)),
        Receiving::Wait => panic!("would block"),
    }
    assert_eq!(*woken.borrow(), vec![60]);
    send(&mut sender, &mut channel, value).unwrap();
    sender.close(&mut channel, &nobody);
    for value in 2..=6 {
        assert_eq!(recv(&mut receiver, &mut channel), Some(value));
    }
    assert_eq!(recv(&mut receiver, &mut channel), None);
}

#[test]
fn serial_unbounded_nonblocking() {
    let (mut channel, mut sender, mut receiver) = unbounded(0);
    for value in 1..=6 {
        send(&mut sender, &mut channel, value).unwrap();
    }
    sender.close(&mut channel, &nobody);
    for value in 1..=6 {
        assert_eq!(recv(&mut receiver, &mut channel), Some(value));
    }
    assert_eq!(recv(&mut receiver, &mut channel), None);
}

#[test]
fn serial_send_close() {
    let (mut channel, mut sender, _receiver) = bounded(3);
    send(&mut sender, &mut channel, 1).unwrap();

    sender.close(&mut channel, &nobody);

    assert_eq!(select_send(&mut sender, &mut channel, 2), None);

    assert_eq!(send(&mut sender, &mut channel, 3), Err(SendError::Closed(3)));
}

#[test]
fn serial_receiver_close() {
    let (mut channel, mut sender, mut receiver) = bounded(3);
    send(&mut sender, &mut channel, 1).unwrap();
    send(&mut sender, &mut channel, 2).unwrap();
    send(&mut sender, &mut channel, 3).unwrap();

    receiver.close(&mut channel, &nobody);
    assert_eq!(recv(&mut receiver, &mut channel), Some(1));
    assert_eq!(select_recv(&mut receiver, &mut channel), Some(Some(2)));
    assert_eq!(recv(&mut receiver, &mut channel), Some(3));
    assert_eq!(select_recv(&mut receiver, &mut channel), Some(None));
    assert_eq!(select_recv(&mut receiver, &mut channel), None);
    assert_eq!(recv(&mut receiver, &mut channel), None);
}

#[test]
fn serial_receiver_terminate() {
    let (mut channel, mut sender, mut receiver) = bounded(3);
    send(&mut sender, &mut channel, 1).unwrap();
    send(&mut sender, &mut channel, 2).unwrap();

    receiver.terminate(&mut channel, &nobody);
    assert_eq!(select_recv(&mut receiver, &mut channel), None);
    assert_eq!(recv(&mut receiver, &mut channel), None);
}

#[test]
fn serial_wakes_first_that_listens() {
    let (mut channel, mut sender, receiver) = bounded(1);
    assert!(receiver.watch_permit(&mut channel, Selector::new(0, 1, Identifier::new(10))));
    assert!(receiver.watch_permit(&mut channel, Selector::new(2, 2, Identifier::new(20))));
    channel.queue_receiver(3);
    let woken = RefCell::new(Vec::new());
    let wake = |waker: W, wakeup: Wakeup| {
        let index = match wakeup {
            Wakeup::Select { index } => Some(index),
            Wakeup::Resume => None,
        };
        woken.borrow_mut().push((waker, index));
        waker != 1
    };
    match sender.send(&mut channel, 5, &wake) {
        Sending::Done(result) => result.unwrap(),
        Sending::Wait { .. } => panic!("would block"),
    }
    assert_eq!(*woken.borrow(), vec![(1, Some(0)), (2, Some(2))]);
    woken.borrow_mut().clear();
    sender.close(&mut channel, &wake);
    assert_eq!(*woken.borrow(), vec![(3, None)]);
}

#[test]
fn serial_unwatch_forgets_selection() {
    let (mut channel, mut sender, mut receiver) = bounded(1);
    assert!(receiver.watch_permit(&mut channel, Selector::new(0, 1, Identifier::new(10))));
    receiver.unwatch_permit(&mut channel, &Identifier::new(11));
    receiver.unwatch_permit(&mut channel, &Identifier::new(10));
    send(&mut sender, &mut channel, 5).unwrap();
    assert!(channel.is_recvable());
    assert!(!channel.is_sendable());
    assert!(sender.watch_permit(&mut channel, Selector::new(1, 1, Identifier::new(12))));
    sender.unwatch_permit(&mut channel, &Identifier::new(12));
    assert_eq!(recv(&mut receiver, &mut channel), Some(5));
    assert!(!sender.parallel());
    assert!(!receiver.parallel());
}

#[test]
fn serial_values_leave_in_order() {
    let (mut channel, mut sender, mut receiver) = bounded(2);
    let mut other = sender.another(&mut channel);
    let mut received = Vec::new();
    send(&mut sender, &mut channel, 1).unwrap();
    send(&mut other, &mut channel, 2).unwrap();
    received.push(recv(&mut receiver, &mut channel).unwrap());
    send(&mut sender, &mut channel, 3).unwrap();
    received.push(recv(&mut receiver, &mut channel).unwrap());
    received.push(recv(&mut receiver, &mut channel).unwrap());
    assert_eq!(received, vec![1, 2, 3]);
    let mut second = receiver.another(&mut channel);
    receiver.terminate(&mut channel, &nobody);
    assert_eq!(second.try_recv(&mut channel, &nobody), Err(TryRecvError::Empty));
}
