use std::cell::RefCell;
use std::collections::VecDeque;

use stuck::channel::parallel::state::{Waiter, Wakeup};
use stuck::channel::parallel::{bounded, unbounded, Channel, Receiver, Receiving, Sender, Sending};
use stuck::channel::shared::Permit;
use stuck::channel::{SendError, TryRecvError, TrySendError};
use stuck::select;
use stuck::select::{Branch, Identifier, Selector, TrySelectError};

type W = u32;

fn nobody(_: W, _: Wakeup<i32>) -> bool {
    panic!("nobody waits")
}

fn recv(receiver: &mut Receiver, channel: &mut Channel<i32, W>) -> Option<i32> {
    match receiver.recv(channel, &nobody) {
        Receiving::Done(value) => value,
        Receiving::Wait => panic!("would block"),
    }
}

fn send(sender: &mut Sender, channel: &mut Channel<i32, W>, value: i32) -> Result<(), SendError<i32>> {
    match sender.send(channel, value, &nobody) {
        Sending::Done(result) => result,
        Sending::Wait { .. } => panic!("would block"),
    }
}

fn channel_send(mut channel: Channel<i32, W>, mut sender: Sender, mut receiver: Receiver) {
    send(&mut sender, &mut channel, 1).unwrap();
    send(&mut sender, &mut channel, 2).unwrap();
    assert_eq!(1, recv(&mut receiver, &mut channel).unwrap());
    assert_eq!(2, recv(&mut receiver, &mut channel).unwrap());
    receiver.terminate(&mut channel, &nobody);

    assert_eq!(send(&mut sender, &mut channel, 3).unwrap_err(), SendError::Closed(3));
    assert_eq!(sender.try_send(&mut channel, 6, &nobody).unwrap_err(), TrySendError::Closed(6));
}

#[test]
fn parallel_bounded_send() {
    let (channel, sender, receiver) = bounded(2);
    channel_send(channel, sender, receiver);
}

#[test]
fn parallel_unbounded_send() {
    let (channel, sender, receiver) = unbounded(2);
    channel_send(channel, sender, receiver);
}

#[test]
fn parallel_bounded_try_send_full() {
    let (mut channel, mut sender, mut receiver) = bounded(2);
    sender.try_send(&mut channel, 1, &nobody).unwrap();
    sender.try_send(&mut channel, 2, &nobody).unwrap();
    assert_eq!(sender.try_send(&mut channel, 3, &nobody).unwrap_err(), TrySendError::Full(3));
    sender.close(&mut channel, &nobody);
    assert_eq!(1, recv(&mut receiver, &mut channel).unwrap());
    assert_eq!(2, recv(&mut receiver, &mut channel).unwrap());
    assert_eq!(None, recv(&mut receiver, &mut channel));
}

#[test]
fn parallel_unbounded_try_send() {
    let (mut channel, mut sender, mut receiver) = unbounded(1);
    sender.try_send(&mut channel, 1, &nobody).unwrap();
    sender.try_send(&mut channel, 2, &nobody).unwrap();
    sender.try_send(&mut channel, 3, &nobody).unwrap();
    sender.close(&mut channel, &nobody);
    assert_eq!(1, recv(&mut receiver, &mut channel).unwrap());
    assert_eq!(2, recv(&mut receiver, &mut channel).unwrap());
    assert_eq!(3, recv(&mut receiver, &mut channel).unwrap());
    assert_eq!(None, recv(&mut receiver, &mut channel));
}

#[test]
fn parallel_bounded_blocking() {
    let (mut channel, mut sender, mut receiver) = bounded(5);
    for value in 1..=5 {
        send(&mut sender, &mut channel, value).unwrap();
    }
    match sender.send(&mut channel, 6, &nobody) {
        Sending::Wait { value } => channel.queue_sender(Waiter::Task { waker: 60, value }),
        Sending::Done(_) => panic!("should block"),
    }
    let woken = RefCell::new(Vec::new());
    let wake = |waker: W, wakeup: Wakeup<i32>| {
        match wakeup {
            Wakeup::Sent(result) => {
                assert_eq!(result, Ok(()));
                woken.borrow_mut().push(waker);
            }
            _ => panic!("not a sender"),
        }
        true
    };
    match receiver.recv(&mut channel, &wake) {
        Receiving::Done(value) => assert_eq!(value, Some(1)),
        Receiving::Wait => panic!("would block"),
    }
    assert_eq!(*woken.borrow(), vec![60]);
    sender.sent(&mut channel, Ok(()), &nobody).unwrap();
    sender.close(&mut channel, &nobody);
    for value in 2..=6 {
        assert_eq!(recv(&mut receiver, &mut channel), Some(value));
    }
    assert_eq!(recv(&mut receiver, &mut channel), None);
}

#[test]
fn parallel_unbounded_nonblocking() {
    let (mut channel, mut sender, mut receiver) = unbounded(0);
    for value in 1..=6 {
        send(&mut sender, &mut channel, value).unwrap();
    }
    sender.close(&mut channel, &nobody);
    for value in 1..=6 {
        assert_eq!(recv(&mut receiver, &mut channel), Some(value));
    }
    assert_eq!(recv(&mut receiver, &mut channel), None);
}

#[test]
fn bounded_send_aborted() {
    let (mut channel, mut sender, mut receiver) = bounded(2);
    let _sender = sender.another(&mut channel);
    send(&mut sender, &mut channel, 1).unwrap();
    send(&mut sender, &mut channel, 2).unwrap();
    match sender.send(&mut channel, 3, &nobody) {
        Sending::Wait { value } => channel.queue_sender(Waiter::Task { waker: 30, value }),
        Sending::Done(_) => panic!("should block"),
    }
    let aborted = |waker: W, _: Wakeup<i32>| {
        assert_eq!(waker, 30);
        false
    };
    match receiver.recv(&mut channel, &aborted) {
        Receiving::Done(value) => assert_eq!(value, Some(1)),
        Receiving::Wait => panic!("would block"),
    }
    assert_eq!(recv(&mut receiver, &mut channel), Some(2));
    assert_eq!(receiver.try_recv(&mut channel, &nobody), Err(TryRecvError::Empty));
}

#[test]
fn parallel_receiver_into_iter() {
    let (mut channel, mut sender, mut receiver) = bounded(3);
    send(&mut sender, &mut channel, 1).unwrap();
    send(&mut sender, &mut channel, 2).unwrap();
    send(&mut sender, &mut channel, 3).unwrap();
    sender.close(&mut channel, &nobody);

    let mut iter = std::iter::from_fn(|| recv(&mut receiver, &mut channel));
    assert_eq!(iter.next(), Some(1));
    assert_eq!(iter.next(), Some(2));
    assert_eq!(iter.next(), Some(3));
    assert_eq!(iter.next(), None);
    assert_eq!(iter.next(), None);
}

fn select_recv(receiver: &mut Receiver, channel: &mut Channel<i32, W>) -> Option<Option<i32>> {
    let selection = match receiver.select_permit(channel) {
        Ok(permit) => Some((0, permit)),
        Err(TrySelectError::Completed) => None,
        Err(TrySelectError::WouldBlock) => panic!("would block"),
    };
    match select::branch(selection, true) {
        Branch::Case { permit, .. } => Some(receiver.consume_permit(channel, permit, &nobody)),
        Branch::Complete => None,
        _ => panic!("no such case"),
    }
}

fn select_send(sender: &mut Sender, channel: &mut Channel<i32, W>, value: i32) -> Option<Result<(), SendError<i32>>> {
    let selection = match sender.select_permit(channel) {
        Ok(permit) => Some((0, permit)),
        Err(TrySelectError::Completed) => None,
        Err(TrySelectError::WouldBlock) => panic!("would block"),
    };
    match select::branch(selection, true) {
        Branch::Case { permit, .. } => Some(sender.consume_permit(channel, permit, value, &nobody)),
        Branch::Complete => None,
        _ => panic!("no such case"),
    }
}

#[test]
fn parallel_send_close() {
    let (mut channel, mut sender, _receiver) = bounded(3);
    send(&mut sender, &mut channel, 1).unwrap();

    sender.close(&mut channel, &nobody);

    assert_eq!(select_send(&mut sender, &mut channel, 2), None);

    assert_eq!(send(&mut sender, &mut channel, 3), Err(SendError::Closed(3)));
}

#[test]
fn parallel_receiver_close() {
    let (mut channel, mut sender, mut receiver) = bounded(3);
    send(&mut sender, &mut channel, 1).unwrap();
    send(&mut sender, &mut channel, 2).unwrap();
    send(&mut sender, &mut channel, 3).unwrap();

    receiver.close(&mut channel, &nobody);
    assert_eq!(recv(&mut receiver, &mut channel), Some(1));
    assert_eq!(select_recv(&mut receiver, &mut channel), Some(Some(2)));
    assert_eq!(recv(&mut receiver, &mut channel), Some(3));
    assert_eq!(select_recv(&mut receiver, &mut channel), Some(None));
    assert_eq!(select_recv(&mut receiver, &mut channel), None);
    assert_eq!(recv(&mut receiver, &mut channel), None);
}

#[test]
fn parallel_receiver_terminate() {
    let (mut channel, mut sender, mut receiver) = bounded(3);
    send(&mut sender, &mut channel, 1).unwrap();
    send(&mut sender, &mut channel, 2).unwrap();

    receiver.terminate(&mut channel, &nobody);
    assert_eq!(select_recv(&mut receiver, &mut channel), None);
    assert_eq!(recv(&mut receiver, &mut channel), None);
}

#[test]
fn sender_select() {
    let (mut channel1, mut sender1, mut receiver1) = bounded(1);
    let (mut channel2, mut sender2, mut receiver2) = unbounded(1);

    let mut values1 = VecDeque::from(vec![1, 3, 5]);
    let mut values2 = VecDeque::from(vec![2, 4, 6]);
    let mut received1 = Vec::new();
    let mut received2 = Vec::new();

    while !(sender1.is_closed() && sender2.is_closed()) {
        if !sender1.is_closed() {
            let value = values1.pop_front().unwrap();
            assert_eq!(select_send(&mut sender1, &mut channel1, value), Some(Ok(())));
            if values1.is_empty() {
                sender1.close(&mut channel1, &nobody);
            }
            received1.push(recv(&mut receiver1, &mut channel1).unwrap());
        }
        if !sender2.is_closed() {
            let value = values2.pop_front().unwrap();
            assert_eq!(select_send(&mut sender2, &mut channel2, value), Some(Ok(())));
            if values2.is_empty() {
                sender2.close(&mut channel2, &nobody);
            }
            received2.push(recv(&mut receiver2, &mut channel2).unwrap());
        }
    }

    assert_eq!(received1, vec![1, 3, 5]);
    assert_eq!(received2, vec![2, 4, 6]);
}

#[test]
fn receiver_select() {
    let (mut channel1, mut sender1, mut receiver1) = bounded(10);
    let (mut channel2, mut sender2, mut receiver2) = unbounded(10);

    for value in vec![1, 3, 5] {
        send(&mut sender1, &mut channel1, value).unwrap();
    }
    sender1.close(&mut channel1, &nobody);
    for value in vec![2, 4, 6] {
        send(&mut sender2, &mut channel2, value).unwrap();
    }
    sender2.close(&mut channel2, &nobody);

    let mut values1 = Vec::new();
    let mut values2 = Vec::new();
    loop {
        let first = select_recv(&mut receiver1, &mut channel1);
        let second = select_recv(&mut receiver2, &mut channel2);
        if first.is_none() && second.is_none() {
            break;
        }
        values1.extend(first.flatten());
        values2.extend(second.flatten());
    }

    assert_eq!(values1, vec![1, 3, 5]);
    assert_eq!(values2, vec![2, 4, 6]);
}

#[test]
fn parallel_values_leave_in_order() {
    let (mut channel, mut sender, mut receiver) = bounded(2);
    let mut received = Vec::new();
    send(&mut sender, &mut channel, 1).unwrap();
    send(&mut sender, &mut channel, 2).unwrap();
    received.push(recv(&mut receiver, &mut channel).unwrap());
    send(&mut sender, &mut channel, 3).unwrap();
    received.push(recv(&mut receiver, &mut channel).unwrap());
    received.push(recv(&mut receiver, &mut channel).unwrap());
    assert_eq!(received, vec![1, 2, 3]);
}

#[test]
fn parallel_waiting_receiver_gets_permit() {
    let (mut channel, mut sender, mut receiver) = bounded(1);
    match receiver.recv(&mut channel, &nobody) {
        Receiving::Wait => channel.queue_receiver(7),
        Receiving::Done(_) => panic!("empty"),
    }
    let woken = RefCell::new(Vec::new());
    let wake = |waker: W, wakeup: Wakeup<i32>| {
        match wakeup {
            Wakeup::Permit(permit) => woken.borrow_mut().push((waker, permit)),
            _ => panic!("not a receiver"),
        }
        true
    };
    match sender.send(&mut channel, 9, &wake) {
        Sending::Done(result) => result.unwrap(),
        Sending::Wait { .. } => panic!("would block"),
    }
    assert_eq!(*woken.borrow(), vec![(7, Permit::Consume)]);
    // The value is spoken for.
    assert_eq!(receiver.try_recv(&mut channel, &nobody), Err(TryRecvError::Empty));
    assert_eq!(receiver.received(&mut channel, Permit::Consume, &nobody), Some(9));
}

#[test]
fn parallel_close_tells_everyone() {
    let (mut channel, mut sender, receiver) = bounded(1);
    send(&mut sender, &mut channel, 1).unwrap();
    match sender.send(&mut channel, 2, &nobody) {
        Sending::Wait { value } => channel.queue_sender(Waiter::Thread { waker: 5, value }),
        Sending::Done(_) => panic!("should block"),
    }
    let told = RefCell::new(Vec::new());
    let wake = |waker: W, wakeup: Wakeup<i32>| {
        match wakeup {
            Wakeup::Sent(result) => told.borrow_mut().push((waker, result)),
            _ => panic!("not a sender"),
        }
        true
    };
    let mut receiver = receiver;
    receiver.close(&mut channel, &wake);
    assert_eq!(*told.borrow(), vec![(5, Err(SendError::Closed(2)))]);
    assert_eq!(sender.sent(&mut channel, Err(SendError::Closed(2)), &nobody), Err(SendError::Closed(2)));
    assert!(sender.is_closed());
    assert!(!receiver.is_drained());
    assert_eq!(recv(&mut receiver, &mut channel), Some(1));
    assert_eq!(recv(&mut receiver, &mut channel), None);
    assert!(receiver.is_drained());
}

#[test]
fn parallel_unwatch_forgets_selection() {
    let (mut channel, mut sender, receiver) = bounded(1);
    let selector = Selector::new(0, 11, Identifier::new(1));
    assert!(!receiver.watch_permit(&mut channel, selector, &nobody));
    receiver.unwatch_permit(&mut channel, &Identifier::new(1));
    send(&mut sender, &mut channel, 4).unwrap();

    // A permit is applied at once when there is one, and taken back when it came too late.
    let late = |_: W, wakeup: Wakeup<i32>| match wakeup {
        Wakeup::Select { index, permit } => {
            assert_eq!((index, permit), (3, Permit::Consume));
            false
        }
        _ => panic!("not a selection"),
    };
    assert!(receiver.watch_permit(&mut channel, Selector::new(3, 11, Identifier::new(2)), &late));
    let mut receiver = receiver;
    assert_eq!(receiver.try_recv(&mut channel, &nobody), Ok(4));

    // Senders are forgotten as well.
    send(&mut sender, &mut channel, 5).unwrap();
    assert!(!sender.watch_permit(&mut channel, Selector::new(1, 12, Identifier::new(3)), &nobody));
    sender.unwatch_permit(&mut channel, &Identifier::new(3));
    assert_eq!(recv(&mut receiver, &mut channel), Some(5));
}

#[test]
fn parallel_another_keeps_channel_open() {
    let (mut channel, mut sender, mut receiver) = bounded(1);
    let mut other = sender.another(&mut channel);
    sender.close(&mut channel, &nobody);
    send(&mut other, &mut channel, 1).unwrap();
    let mut second = receiver.another(&mut channel);
    receiver.terminate(&mut channel, &nobody);
    assert!(second.parallel());
    assert!(!receiver.parallel());
    assert_eq!(recv(&mut second, &mut channel), Some(1));
    other.close(&mut channel, &nobody);
    assert_eq!(recv(&mut second, &mut channel), None);
}

fn wait(receiver: &mut Receiver, channel: &mut Channel<i32, W>, waker: W) {
    match receiver.recv(channel, &nobody) {
        Receiving::Wait => channel.queue_receiver(waker),
        Receiving::Done(_) => panic!("should block"),
    }
}

#[test]
fn parallel_permitted_value_goes_to_waiting_receiver_after_close() {
    let (mut channel, mut sender, mut receiver) = bounded(2);
    wait(&mut receiver, &mut channel, 7);
    let permit = sender.select_permit(&mut channel).ok().unwrap();
    // The channel is closed, but a value will come.
    receiver.close(&mut channel, &nobody);
    assert!(!receiver.is_drained());
    let woken = RefCell::new(Vec::new());
    let wake = |waker: W, wakeup: Wakeup<i32>| {
        match wakeup {
            Wakeup::Permit(permit) => woken.borrow_mut().push((waker, permit)),
            _ => panic!("not a receiver"),
        }
        true
    };
    assert_eq!(sender.consume_permit(&mut channel, permit, 9, &wake), Ok(()));
    assert_eq!(*woken.borrow(), vec![(7, Permit::Consume)]);
    assert_eq!(receiver.received(&mut channel, Permit::Consume, &nobody), Some(9));
    assert_eq!(recv(&mut receiver, &mut channel), None);
    assert!(receiver.is_drained());
}

#[test]
fn parallel_last_value_by_permit_tells_waiting_receiver() {
    let (mut channel, mut sender, mut receiver) = bounded(2);
    let mut other = receiver.another(&mut channel);
    send(&mut sender, &mut channel, 1).unwrap();
    let permit = other.select_permit(&mut channel).ok().unwrap();
    wait(&mut receiver, &mut channel, 7);
    sender.close(&mut channel, &nobody);
    let told = RefCell::new(Vec::new());
    let wake = |waker: W, wakeup: Wakeup<i32>| {
        match wakeup {
            Wakeup::Permit(permit) => told.borrow_mut().push((waker, permit)),
            _ => panic!("not a receiver"),
        }
        true
    };
    assert_eq!(other.consume_permit(&mut channel, permit, &wake), Some(1));
    assert_eq!(*told.borrow(), vec![(7, Permit::Closed)]);
    assert_eq!(receiver.received(&mut channel, Permit::Closed, &nobody), None);
    assert!(receiver.is_drained());
}

#[test]
fn parallel_last_value_tells_waiting_receiver() {
    let (mut channel, mut sender, mut receiver) = bounded(1);
    let mut other = receiver.another(&mut channel);
    send(&mut sender, &mut channel, 1).unwrap();
    match sender.send(&mut channel, 2, &nobody) {
        Sending::Wait { value } => channel.queue_sender(Waiter::Thread { waker: 5, value }),
        Sending::Done(_) => panic!("should block"),
    }
    let permit = other.select_permit(&mut channel).ok().unwrap();
    wait(&mut receiver, &mut channel, 7);
    // The value of the waiting sender comes in.
    let sent = |waker: W, wakeup: Wakeup<i32>| {
        assert_eq!(waker, 5);
        matches!(wakeup, Wakeup::Sent(Ok(())))
    };
    assert_eq!(other.consume_permit(&mut channel, permit, &sent), Some(1));
    assert_eq!(sender.sent(&mut channel, Ok(()), &nobody), Ok(()));
    sender.close(&mut channel, &nobody);
    let told = RefCell::new(Vec::new());
    let wake = |waker: W, wakeup: Wakeup<i32>| {
        match wakeup {
            Wakeup::Permit(permit) => told.borrow_mut().push((waker, permit)),
            _ => panic!("not a receiver"),
        }
        true
    };
    assert_eq!(other.try_recv(&mut channel, &wake), Ok(2));
    assert_eq!(*told.borrow(), vec![(7, Permit::Closed)]);
    assert_eq!(receiver.received(&mut channel, Permit::Closed, &nobody), None);
    assert_eq!(other.try_recv(&mut channel, &nobody), Err(TryRecvError::Closed));
}

#[test]
fn parallel_waiting_sender_keeps_its_turn() {
    let (mut channel, mut sender, mut receiver) = bounded(1);
    let mut received = Vec::new();
    send(&mut sender, &mut channel, 1).unwrap();
    match sender.send(&mut channel, 2, &nobody) {
        Sending::Wait { value } => channel.queue_sender(Waiter::Thread { waker: 5, value }),
        Sending::Done(_) => panic!("should block"),
    }
    let sent = |_: W, wakeup: Wakeup<i32>| matches!(wakeup, Wakeup::Sent(Ok(())));
    match receiver.recv(&mut channel, &sent) {
        Receiving::Done(value) => received.push(value.unwrap()),
        Receiving::Wait => panic!("would block"),
    }
    assert_eq!(sender.try_send(&mut channel, 3, &nobody), Err(TrySendError::Full(3)));
    sender.close(&mut channel, &nobody);
    received.push(recv(&mut receiver, &mut channel).unwrap());
    assert_eq!(received, vec![1, 2]);
    assert_eq!(recv(&mut receiver, &mut channel), None);
    assert!(receiver.is_drained());
}
