use std::cell::RefCell;

use stuck::channel::serial;
use stuck::select::{Identifier, Selector, TrySelectError};
use stuck::time;
use stuck::time::wheel::{Node, Timer, TIME_LEAST_MASK, TIME_LEAST_VALUE, TIME_LEVEL_VALUE};
use stuck::time::{Duration, Fed, Feed, Message, Sleep, Ticker, NO_RUNTIME, RUNTIME_STOPPING};

type W = u32;

fn millis(millis: u64) -> Duration {
    Duration { secs: millis / 1000, nanos: (millis % 1000) as u32 * 1_000_000 }
}

fn nobody(_: W, _: serial::Wakeup) -> bool {
    panic!("nobody waits")
}

fn expired(nodes: impl IntoIterator<Item = Node<u64>>) -> Vec<u64> {
    nodes.into_iter().map(|node| node.session).collect()
}

fn sleep(time: u64, timeout: u64) {
    let mut timer = Timer::new();
    timer.update(time);
    timer.timeout(timeout, 1u64);
    assert_eq!(expired(timer.update(time + timeout - 1)), vec![]);
    assert_eq!(expired(timer.update(time + timeout)), vec![1]);
    assert_eq!(expired(timer.update(time + timeout + 1)), vec![]);
}

#[test]
fn timer_wakes_in_time() {
    sleep(0, 1);
    sleep(0, 2);
    sleep(1111, 1);
    sleep(1111, 2);
    sleep(0, 22);
    sleep(22, 222);
    sleep(0, TIME_LEAST_MASK - 11);
    sleep(22, TIME_LEAST_MASK - 11);
    sleep(0, TIME_LEAST_MASK);
    sleep(0, TIME_LEAST_VALUE);
    sleep(111, TIME_LEAST_MASK);
    sleep(111, TIME_LEAST_VALUE);
    sleep(111, TIME_LEAST_MASK * 2 + 333);
    sleep(111, TIME_LEAST_MASK * 3 + 333);
    sleep(111, TIME_LEAST_MASK * 4 + 333);
}

#[test]
fn timer_wakes_in_time_on_upper_level() {
    sleep(TIME_LEAST_VALUE * TIME_LEVEL_VALUE, TIME_LEAST_VALUE);
}

#[test]
fn timer_wakes_the_earliest_first() {
    let mut timer = Timer::new();
    for (timeout, session) in [(40_000, 3u64), (5, 1), (20_000, 2), (5, 11)] {
        timer.timeout(timeout, session);
    }
    assert_eq!(timer.time(), 0);
    assert_eq!(expired(timer.update(50_000)), vec![1, 11, 2, 3]);
    assert_eq!(timer.time(), 50_000);
    assert_eq!(expired(timer.update(10)), vec![]);
    assert_eq!(timer.time(), 50_000);
}

#[test]
fn timer_in_steps() {
    let mut timer = Timer::new();
    timer.timeout(3, 1u64);
    timer.timeout(6, 2u64);
    let mut woken = expired(timer.update(4));
    woken.extend(expired(timer.update(6)));
    assert_eq!(woken, vec![1, 2]);
    timer.timeout(1, 3);
    assert_eq!(expired(timer.tick()), vec![3]);
}

#[test]
fn messages_to_the_timer() {
    let mut timer = Timer::new();
    let handled = time::handle(&mut timer, Message::Timeout { time: 0, timeout: 5, session: 1u64 });
    assert!(!handled.stop);
    assert!(handled.expired.is_empty());
    // One tick more than asked for.
    assert_eq!(expired(time::handle(&mut timer, Message::UpdateTime { time: 5 }).expired), vec![]);
    assert_eq!(expired(time::handle(&mut timer, Message::UpdateTime { time: 6 }).expired), vec![1]);
    assert!(time::handle(&mut timer, Message::Stop).stop);
    time::handle(&mut timer, Message::Timeout { time: 6, timeout: u64::MAX, session: 2 });
    assert_eq!(expired(time::handle(&mut timer, Message::UpdateTime { time: 7 }).expired), vec![]);
}

#[test]
fn late_timer_wakes_nobody_early() {
    let mut timer = Timer::new();
    timer.update(10);
    // The clock is at 40 when the timer has heard of 10 only.
    time::handle(&mut timer, Message::Timeout { time: 40, timeout: 5, session: 1u64 });
    // The timer has heard of a later time meanwhile.
    time::handle(&mut timer, Message::Timeout { time: 8, timeout: 5, session: 2 });
    assert_eq!(expired(time::handle(&mut timer, Message::UpdateTime { time: 15 }).expired), vec![]);
    assert_eq!(expired(time::handle(&mut timer, Message::UpdateTime { time: 45 }).expired), vec![2]);
    assert_eq!(expired(time::handle(&mut timer, Message::UpdateTime { time: 46 }).expired), vec![1]);
}

#[test]
fn ticker_moves_on() {
    let mut ticker = Ticker::new(u64::MAX, 2, 3);
    assert_eq!(ticker.rand(), 4);
    assert_eq!(ticker.tick(0), None);
    assert_eq!(ticker.tick(7), Some(7));
    assert_eq!(ticker.rand(), 11);
    assert_eq!(ticker.tick(7), None);
    assert_eq!(ticker.tick(8), Some(8));
    assert_eq!(ticker.rand(), 19);
}

#[test]
fn runtime_sleep() {
    assert_eq!(time::sleep(millis(6000)), Sleep::Wait { timeout: 6000 });
    // At least as long as asked for.
    assert_eq!(time::sleep(Duration { secs: 1, nanos: 1 }), Sleep::Wait { timeout: 1001 });
    assert_eq!(time::sleep(Duration { secs: 0, nanos: 1 }), Sleep::Wait { timeout: 1 });
    assert_eq!(time::sleep(Duration { secs: u64::MAX, nanos: 0 }), Sleep::Wait { timeout: u64::MAX });
    assert_eq!(NO_RUNTIME, "no runtime");
}

#[test]
fn runtime_sleep_zero() {
    assert_eq!(time::sleep(millis(0)), Sleep::Yield);
}

#[test]
fn after() {
    let (mut channel, mut after, mut sender, feeder) = time::after::<W>(millis(2000));
    assert_eq!(feeder.next(Fed::Nothing), Feed::Sleep(millis(2000)));
    assert!(matches!(after.select_permit(&channel), Err(TrySelectError::WouldBlock)));
    assert!(after.watch_permit(&mut channel, Selector::new(3, 8, Identifier::new(1))));
    assert_eq!(feeder.next(Fed::Slept), Feed::Send);
    let woken = RefCell::new(Vec::new());
    let wake = |waker: W, wakeup: serial::Wakeup| {
        assert!(matches!(wakeup, serial::Wakeup::Select { index: 3 }));
        woken.borrow_mut().push(waker);
        true
    };
    assert!(matches!(sender.send(&mut channel, (), &wake), serial::Sending::Done(Ok(()))));
    assert_eq!(*woken.borrow(), vec![8]);
    assert_eq!(feeder.next(Fed::Sent { ok: true }), Feed::Stop);
    let permit = after.select_permit(&channel).unwrap();
    assert!(after.consume_permit(&mut channel, permit, &nobody));
    assert!(matches!(after.select_permit(&channel), Err(TrySelectError::Completed)));
    assert!(!after.parallel());
}

#[test]
fn interval() {
    let timeout = millis(2000);
    let (mut channel, mut interval, mut sender, feeder) = time::interval::<W>(timeout, Some(timeout));
    let mut feed = feeder.next(Fed::Nothing);
    for _ in 0..5 {
        assert_eq!(feed, Feed::Sleep(timeout));
        assert_eq!(feeder.next(Fed::Slept), Feed::Send);
        let ok = matches!(sender.send(&mut channel, (), &nobody), serial::Sending::Done(Ok(())));
        feed = feeder.next(Fed::Sent { ok });
        let permit = interval.select_permit(&channel).unwrap();
        assert!(interval.consume_permit(&mut channel, permit, &nobody));
    }
    assert!(interval.watch_permit(&mut channel, Selector::new(0, 8, Identifier::new(1))));
    interval.unwatch_permit(&mut channel, &Identifier::new(1));
    sender.close(&mut channel, &nobody);
    let permit = interval.select_permit(&channel).unwrap();
    assert!(!interval.consume_permit(&mut channel, permit, &nobody));
    assert_eq!(RUNTIME_STOPPING, "runtime stopping");
    assert_eq!(feeder.next(Fed::Sent { ok: false }), Feed::Stop);
    let (_, _, _, feeder) = time::interval::<W>(timeout, None);
    assert_eq!(feeder.next(Fed::Nothing), Feed::Send);
    assert!(millis(1).has_millis());
    assert!(!Duration { secs: 0, nanos: 999_999 }.has_millis());
}

#[test]
fn dropped_selectables_stop_their_feeders() {
    let (mut channel, mut interval, mut sender, feeder) = time::interval::<W>(millis(5), None);
    assert!(matches!(feeder.next(Fed::Nothing), Feed::Send));
    interval.terminate(&mut channel, &nobody);
    let ok = matches!(sender.send(&mut channel, (), &nobody), serial::Sending::Done(Ok(())));
    assert!(!ok);
    assert!(matches!(feeder.next(Fed::Sent { ok }), Feed::Stop));
    let (mut channel, mut after, mut sender, _) = time::after::<W>(millis(5));
    after.terminate(&mut channel, &nobody);
    assert!(matches!(sender.send(&mut channel, (), &nobody), serial::Sending::Done(Err(_))));
}
