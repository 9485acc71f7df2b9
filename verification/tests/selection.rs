use std::cell::Cell;
use std::collections::VecDeque;

use stuck::channel::serial;
use stuck::channel::SendError;
use stuck::select;
use stuck::select::{
    Branch, Enumerator, Identifier, Never, Permit, PermitReader, Selectable, Selecting, Selector, TrySelectError, Trying, Watcher,
};

type W = u32;
type Wake = fn(W, (usize, Permit)) -> bool;

fn never_woken(_: W, _: (usize, Permit)) -> bool {
    panic!("nobody waits")
}

fn nobody(_: W, _: serial::Wakeup) -> bool {
    panic!("nobody waits")
}

/// One reader, enabled or not.
fn select_one<S: Selectable<W, Wake>>(reader: S, enabled: bool) -> (Result<(usize, Permit), TrySelectError>, Option<S>) {
    let mut candidates = vec![if enabled { Some(reader) } else { None }];
    let result = select::try_select::<W, Wake, _>(&mut candidates, 7);
    (result, candidates.pop().unwrap())
}

fn waits(result: Result<(usize, Permit), TrySelectError>) -> Option<(usize, Permit)> {
    match result {
        Ok(selection) => Some(selection),
        Err(TrySelectError::Completed) => None,
        Err(TrySelectError::WouldBlock) => panic!("would block"),
    }
}

/// Tries to select from receiver and sender of one channel, where they are enabled.
fn try_ends<T>(
    channel: &serial::Channel<T, W>,
    receiver: Option<&serial::Receiver>,
    sender: Option<&serial::Sender>,
) -> Result<(usize, Permit), TrySelectError> {
    let mut trying = Trying::new(3, 2);
    while let Some(index) = trying.next() {
        let answer = if index == 0 {
            receiver.map(|receiver| receiver.select_permit(channel))
        } else {
            sender.map(|sender| sender.select_permit(channel))
        };
        if let Some(answer) = answer {
            if let Some(permit) = trying.answer(answer) {
                return Ok((index, permit));
            }
        }
    }
    Err(trying.finish())
}

#[derive(Debug, PartialEq)]
enum Selected<T> {
    Received(Option<T>),
    Sent(Result<(), SendError<T>>),
    Default,
    Complete,
}

fn run<T>(
    channel: &mut serial::Channel<T, W>,
    receiver: Option<&mut serial::Receiver>,
    sender: Option<(&mut serial::Sender, T)>,
    default: bool,
    complete: bool,
) -> Selected<T> {
    let result = try_ends(channel, receiver.as_deref(), sender.as_ref().map(|(sender, _)| &**sender));
    let branch = if default { select::branch_or_default(result, complete) } else { select::branch(waits(result), complete) };
    match branch {
        Branch::Case { index: 0, permit } => Selected::Received(receiver.unwrap().consume_permit(channel, permit, &nobody)),
        Branch::Case { permit, .. } => {
            let (sender, value) = sender.unwrap();
            Selected::Sent(sender.consume_permit(channel, permit, value, &nobody))
        }
        Branch::Default => Selected::Default,
        Branch::Complete => Selected::Complete,
        Branch::Panic => panic!("{}", select::NOTHING_TO_SELECT),
    }
}

#[test]
fn never() {
    let (result, _) = select_one::<Never>(select::never(), true);
    assert!(matches!(select::branch(waits(result), true), Branch::Complete));
}

#[test]
fn select_ready() {
    let ready = select::ready(());
    let (result, ready) = select_one(ready, true);
    let mut ready = ready.unwrap();
    match select::branch(waits(result), true) {
        Branch::Case { index, permit } => {
            assert_eq!(index, 0);
            let v = ready.consume_permit(permit);
            assert_eq!(v, ());
        }
        _ => unreachable!("not completed"),
    }
    let (result, _) = select_one(ready, true);
    match select::branch(waits(result), true) {
        Branch::Case { .. } => unreachable!("ready consumed"),
        Branch::Complete => {}
        _ => unreachable!("no such case"),
    }
}

#[test]
fn deque() {
    let mut values = vec![1, 2, 3];
    let mut deque: VecDeque<i32> = values.drain(..).collect();
    assert_eq!(values, vec![]);
    loop {
        let (result, back) = select_one(deque, true);
        deque = back.unwrap();
        match select::branch(waits(result), true) {
            Branch::Case { permit, .. } => values.push(deque.consume_permit(permit)),
            _ => break,
        }
    }
    assert_eq!(values, vec![1, 2, 3]);
}

#[test]
fn option() {
    let mut option = Some(5);
    loop {
        let (result, back) = select_one(option, true);
        option = back.unwrap();
        match select::branch(waits(result), true) {
            Branch::Case { permit, .. } => assert_eq!(option.consume_permit(permit), 5),
            _ => break,
        }
    }
    assert_eq!(option, None);
}

#[test]
fn select_handover() {
    let (mut channel, mut sender, mut receiver) = serial::bounded(1);

    assert_eq!(run(&mut channel, Some(&mut receiver), Some((&mut sender, 1)), false, false), Selected::Sent(Ok(())));

    assert_eq!(run(&mut channel, Some(&mut receiver), Some((&mut sender, 2)), false, false), Selected::Received(Some(1)));
}

#[test]
fn select_send() {
    let (mut channel, mut sender, mut receiver) = serial::bounded(1);
    let sender_enabled;
    assert_eq!(run(&mut channel, Some(&mut receiver), Some((&mut sender, 1)), false, false), Selected::Sent(Ok(())));
    match run(&mut channel, Some(&mut receiver), Some((&mut sender, 1)), false, false) {
        Selected::Received(value) => {
            assert_eq!(value, Some(1));
            sender_enabled = false;
        }
        _ => panic!("full"),
    }
    assert!(matches!(sender.try_send(&mut channel, 2, &nobody), Ok(())));
    let fifth = if sender_enabled { Some((&mut sender, 5)) } else { None };
    assert_eq!(run(&mut channel, Some(&mut receiver), fifth, false, false), Selected::Received(Some(2)));
}

#[test]
fn select_disabled_default() {
    let ready = select::ready(());
    let (result, _) = select_one(ready, false);
    match select::branch_or_default(result, false) {
        Branch::Case { .. } => unreachable!("not enabled"),
        Branch::Default => {}
        _ => unreachable!("no such case"),
    }
}

#[test]
fn select_disabled_panics() {
    let (result, _) = select_one(select::ready(()), false);
    assert!(matches!(select::branch(waits(result), false), Branch::Panic));
    assert!(select::NOTHING_TO_SELECT.contains("all selectables are disabled or completed"));
}

#[test]
fn select_loop_default() {
    let (mut channel, mut sender, mut receiver) = serial::bounded(1);
    let mut sent = false;
    let mut received = false;
    loop {
        let sending = if sent { None } else { Some((&mut sender, 1)) };
        match run(&mut channel, Some(&mut receiver), sending, true, false) {
            Selected::Received(_) => received = true,
            Selected::Sent(_) => sent = true,
            Selected::Default => {
                assert!(sent);
                assert!(received);
                break;
            }
            Selected::Complete => unreachable!("no such case"),
        }
    }
}

#[test]
fn select_send_default() {
    let (mut channel, mut sender, mut receiver) = serial::bounded(2);
    let mut sent = 0;
    let mut received = 0;
    loop {
        match run(&mut channel, None, Some((&mut sender, 2)), true, false) {
            Selected::Sent(_) => {
                sent += 1;
            }
            _ => break,
        }
    }
    loop {
        match run(&mut channel, Some(&mut receiver), None, true, false) {
            Selected::Received(r) => {
                received += 1;
                assert_eq!(r, Some(2));
            }
            _ => break,
        }
    }
    assert_eq!(sent, 2);
    assert_eq!(received, 2);
}

#[test]
fn complete_wins_over_default_only_if_completed() {
    let (mut channel, mut sender, mut receiver) = serial::bounded::<i32, W>(1);
    assert_eq!(run(&mut channel, Some(&mut receiver), None, true, true), Selected::Default);
    sender.close(&mut channel, &nobody);
    assert_eq!(run(&mut channel, Some(&mut receiver), None, true, true), Selected::Received(None));
    assert_eq!(run(&mut channel, Some(&mut receiver), None, true, true), Selected::Complete);
    assert_eq!(run(&mut channel, Some(&mut receiver), None, true, false), Selected::Default);
    assert_eq!(run(&mut channel, Some(&mut receiver), None, false, true), Selected::Complete);
}

#[test]
fn enumerator_visits_each_once() {
    let mut enumerator = Enumerator::new(12, 5);
    let mut visited = Vec::new();
    for _ in 0..5 {
        visited.push(enumerator.next().unwrap());
    }
    assert_eq!(enumerator.next(), None);
    assert_eq!(visited, vec![2, 3, 4, 0, 1]);
    let mut again = enumerator.again();
    assert_eq!(again.next(), Some(2));
}

#[test]
fn selection_starts_at_random_candidate() {
    let mut candidates = vec![Some(VecDeque::from(vec![1])), Some(VecDeque::from(vec![2])), None];
    let selection = select::try_select::<W, Wake, _>(&mut candidates, 1);
    assert!(matches!(selection, Ok((1, _))));
    let selection = select::try_select::<W, Wake, _>(&mut candidates, 2);
    assert!(matches!(selection, Ok((0, _))));
}

#[test]
fn watching_registers_and_unwatches() {
    let (mut channel, mut sender, receiver) = serial::bounded::<i32, W>(1);
    assert!(matches!(try_ends(&channel, Some(&receiver), None), Err(TrySelectError::WouldBlock)));
    let mut watcher = Watcher::new(0, 2, Identifier::new(77));
    let mut watched = Vec::new();
    while let Some(index) = watcher.next() {
        if index == 0 {
            let selector = watcher.selector(index, 9);
            assert!(receiver.watch_permit(&mut channel, selector));
            watched.push(index);
        }
        watcher.pass();
    }
    assert_eq!(watched, vec![0]);
    let mut witness = watcher.finish();
    let mut unwatched = Vec::new();
    while let Some(index) = witness.next() {
        if index == 0 {
            receiver.unwatch_permit(&mut channel, witness.identifier());
        }
        unwatched.push(index);
    }
    assert_eq!(unwatched, vec![0, 1]);
    assert!(matches!(sender.send(&mut channel, 3, &nobody), serial::Sending::Done(Ok(()))));
}

#[test]
fn watching_stops_when_ready() {
    let applied: Wake = |waker, (index, permit)| {
        assert_eq!((waker, index, permit), (9, 1, Permit::with_primitive(0)));
        true
    };
    let asked = Cell::new(0);
    let ready = || {
        asked.set(asked.get() + 1);
        true
    };
    let mut candidates = vec![None, Some(select::ready(4)), Some(select::ready(5))];
    let mut witness = select::watch(&mut candidates, 0, &9, Identifier::new(78), &ready, &applied);
    assert_eq!(asked.get(), 1);
    // Only the disabled candidate came before the one that was ready.
    assert_eq!(witness.next(), Some(0));
    assert_eq!(witness.next(), None);

    let mut candidates = vec![Some(VecDeque::<i32>::new())];
    let wake: Wake = never_woken;
    let witness = select::watch(&mut candidates, 0, &9, Identifier::new(79), &ready, &wake);
    assert_eq!(asked.get(), 1);
    witness.unwatch::<W, Wake, _>(&mut candidates);
}

#[test]
fn selection_that_would_block_tells_so() {
    let mut trying = Trying::new(0, 2);
    assert_eq!(trying.next(), Some(0));
    assert!(trying.answer(Err(TrySelectError::WouldBlock)).is_none());
    assert_eq!(trying.next(), Some(1));
    assert!(trying.answer(Err(TrySelectError::Completed)).is_none());
    assert_eq!(trying.next(), None);
    assert_eq!(trying.finish(), TrySelectError::WouldBlock);

    let mut candidates = vec![Some(select::never()), None];
    assert!(matches!(select::select::<W, Wake, _>(&mut candidates, 5), Selecting::Done(None)));
    let mut candidates = vec![Some(Some(6))];
    assert!(matches!(select::select::<W, Wake, _>(&mut candidates, 5), Selecting::Done(Some((0, _)))));
}

#[test]
fn permit_round_trip() {
    assert_eq!(Permit::with_primitive(5).into_primitive(), 5);
    assert_eq!(Permit::with_compound(5, 6).into_compound(), (5, 6));
    assert_eq!(Permit::default().into_primitive(), 0);
    let identifier = Identifier::new(3);
    assert!(identifier.equals(&identifier.copy()));
    let selector = Selector::new(2, 8u32, Identifier::new(3));
    assert!(selector.identify(&identifier));
    assert!(!selector.identify(&Identifier::new(4)));
    assert_eq!(selector.apply(Permit::with_primitive(1)), (8, (2, Permit::with_primitive(1))));
}
