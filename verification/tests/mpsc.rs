use stuck::task::mpsc::{bounded, unbounded, Channel, Receiver, RecvFlow, SendFlow, Sender, Waiter, Waker};

type W = u32;

fn send(sender: &mut Sender, channel: &mut Channel<i32, W>, value: i32) -> Result<(), i32> {
    match sender.send(channel, value) {
        SendFlow::Done { result, receiver } => {
            assert_eq!(receiver, None);
            result
        }
        SendFlow::Wait { .. } => panic!("would block"),
    }
}

fn recv(receiver: &mut Receiver, channel: &mut Channel<i32, W>) -> Option<i32> {
    match receiver.recv(channel) {
        RecvFlow::Done { value, sender } => {
            assert!(sender.is_none());
            value
        }
        RecvFlow::Wait => panic!("would block"),
    }
}

#[test]
fn mpsc_bounded_blocking() {
    let (mut channel, mut sender, mut receiver) = bounded(5);
    for value in 1..=5 {
        send(&mut sender, &mut channel, value).unwrap();
    }
    match sender.send(&mut channel, 6) {
        SendFlow::Wait { value } => channel.queue_sender(Waiter::Task { waker: 60, value }),
        SendFlow::Done { .. } => panic!("should block"),
    }
    match receiver.recv(&mut channel) {
        RecvFlow::Done { value, sender } => {
            assert_eq!(value, Some(1));
            assert!(matches!(sender, Some(Waker::Task(60))));
        }
        RecvFlow::Wait => panic!("would block"),
    }
    assert!(sender.close(&mut channel).is_some());
    for value in 2..=6 {
        assert_eq!(recv(&mut receiver, &mut channel), Some(value));
    }
    assert_eq!(recv(&mut receiver, &mut channel), None);
}

#[test]
fn mpsc_unbounded_nonblocking() {
    let (mut channel, mut sender, mut receiver) = unbounded(0);
    for value in 1..=6 {
        send(&mut sender, &mut channel, value).unwrap();
    }
    assert!(sender.close(&mut channel).is_some());
    for value in 1..=6 {
        assert_eq!(recv(&mut receiver, &mut channel), Some(value));
    }
    assert_eq!(recv(&mut receiver, &mut channel), None);
}

#[test]
fn mpsc_first_value_wakes_receiver() {
    let (mut channel, mut sender, mut receiver) = bounded::<i32, W>(2);
    assert!(matches!(receiver.recv(&mut channel), RecvFlow::Wait));
    channel.queue_receiver(9);
    match sender.send(&mut channel, 1) {
        SendFlow::Done { result, receiver } => {
            assert_eq!(result, Ok(()));
            assert_eq!(receiver, Some(9));
        }
        SendFlow::Wait { .. } => panic!("would block"),
    }
    send(&mut sender, &mut channel, 2).unwrap();
    assert_eq!(recv(&mut receiver, &mut channel), Some(1));
    assert_eq!(recv(&mut receiver, &mut channel), Some(2));
}

#[test]
fn mpsc_close_gives_values_back() {
    let (mut channel, mut sender, mut receiver) = bounded::<i32, W>(1);
    let mut other = sender.another(&mut channel);
    let third = receiver.sender(&mut channel);
    send(&mut sender, &mut channel, 1).unwrap();
    match other.send(&mut channel, 2) {
        SendFlow::Wait { value } => channel.queue_sender(Waiter::Thread { waker: 4, value }),
        SendFlow::Done { .. } => panic!("should block"),
    }
    assert!(third.close(&mut channel).is_none());
    let mut closing = receiver.close(&mut channel);
    assert_eq!(closing.receiver, None);
    assert!(matches!(closing.senders.pop_front(), Some(Waiter::Thread { waker: 4, value: 2 })));
    assert!(closing.senders.is_empty());
    assert_eq!(send(&mut sender, &mut channel, 3), Err(3));
    assert_eq!(recv(&mut receiver, &mut channel), Some(1));
    assert_eq!(recv(&mut receiver, &mut channel), None);
    assert!(receiver.terminate(&mut channel).is_none());
}

#[test]
fn mpsc_dropped_receiver_closes() {
    let (mut channel, mut sender, receiver) = bounded::<i32, W>(1);
    assert!(receiver.terminate(&mut channel).is_some());
    assert_eq!(send(&mut sender, &mut channel, 3), Err(3));
}
