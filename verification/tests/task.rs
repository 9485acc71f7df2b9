use std::cell::RefCell;

use stuck::task::{Mailbox, Progress, SchedFlow, Step, Task, DEADLOCK, MAIN_TERMINATED};

/// What happened in a run.
#[derive(Debug, PartialEq, Clone)]
enum Event {
    Ran(u64),
    Dropped(u64),
    Interrupted(u64, &'static str),
    Snoozed,
}

/// Runs a task, where `run` does what a coroutine does and tells whether it completed.
fn sched(
    task: &mut Task,
    mailbox: &mut Mailbox,
    progress: Progress,
    refuse: &[u64],
    mut run: impl FnMut(&mut Task, &mut Mailbox, u64) -> bool,
) -> (SchedFlow, Vec<Event>) {
    let events = RefCell::new(Vec::new());
    let interrupt = |yielding: u64, msg: &'static str| {
        events.borrow_mut().push(Event::Interrupted(yielding, msg));
        !refuse.contains(&yielding)
    };
    let mut progress = progress;
    loop {
        match task.step(progress, mailbox, &interrupt) {
            Step::Run { co, progress: next } => {
                events.borrow_mut().push(Event::Ran(co));
                let completed = run(task, mailbox, co);
                let (dropped, next) = task.ran(co, completed, next);
                events.borrow_mut().extend(dropped.map(Event::Dropped));
                progress = next;
            }
            Step::Snooze { progress: next } => {
                events.borrow_mut().push(Event::Snoozed);
                assert!(events.borrow().len() < 100);
                mailbox.wake(50);
                progress = next;
            }
            Step::Drop { coroutines, progress: next } => {
                events.borrow_mut().extend(coroutines.into_iter().map(Event::Dropped));
                progress = next;
            }
            Step::Done(flow) => return (flow, events.into_inner()),
        }
    }
}

#[test]
fn main_coroutine_completes() {
    let mut task = Task::new(1, 10);
    let mut mailbox = Mailbox::new();
    assert_eq!(task.id(), 1);
    let progress = task.sched(&mut mailbox);
    let (flow, events) = sched(&mut task, &mut mailbox, progress, &[], |_, _, _| true);
    assert_eq!(flow, SchedFlow::Cease);
    assert_eq!(events, vec![Event::Ran(10), Event::Dropped(10)]);
}

#[test]
fn main_coroutine() {
    // Two coroutines are spawned. One blocks for long, the other completes and lets main go on.
    let mut task = Task::new(1, 10);
    let mut mailbox = Mailbox::new();
    let mut times = 0;
    let progress = task.sched(&mut mailbox);
    let (flow, events) = sched(&mut task, &mut mailbox, progress, &[], |task, _, co| match co {
        10 => {
            times += 1;
            if times == 1 {
                task.spawn(20);
                task.spawn(30);
                task.suspend(10, 100);
                return false;
            }
            true
        }
        20 => {
            if times == 1 {
                task.block(20, 200);
                return false;
            }
            true
        }
        _ => {
            task.resume(10);
            true
        }
    });
    assert_eq!(flow, SchedFlow::Cease);
    assert_eq!(
        events,
        vec![
            Event::Ran(10),
            Event::Ran(30),
            Event::Dropped(30),
            Event::Ran(20),
            Event::Ran(10),
            Event::Interrupted(200, MAIN_TERMINATED),
            Event::Ran(20),
            Event::Dropped(20),
            Event::Dropped(10),
        ]
    );
    assert_eq!(MAIN_TERMINATED, "task main terminated");
}

#[test]
fn task_yield_now() {
    // A task that yields lets others run before its own spawned coroutines.
    let mut task = Task::new(1, 10);
    let mut mailbox = Mailbox::new();
    let progress = task.sched(&mut mailbox);
    let (flow, events) = sched(&mut task, &mut mailbox, progress, &[], |task, _, co| {
        task.spawn(20);
        task.yield_task(co);
        false
    });
    assert_eq!(flow, SchedFlow::Yield);
    assert_eq!(events, vec![Event::Ran(10)]);
    let progress = task.sched(&mut mailbox);
    let (flow, events) = sched(&mut task, &mut mailbox, progress, &[], |_, _, _| true);
    assert_eq!(flow, SchedFlow::Cease);
    assert_eq!(events, vec![Event::Ran(20), Event::Dropped(20), Event::Ran(10), Event::Dropped(10)]);
}

#[test]
fn mod_yield_now() {
    // A coroutine that yields lets the spawned one run in the same run.
    let mut task = Task::new(1, 10);
    let mut mailbox = Mailbox::new();
    let progress = task.sched(&mut mailbox);
    let (flow, events) = sched(&mut task, &mut mailbox, progress, &[], |task, _, co| {
        if co == 10 {
            task.spawn(20);
            task.yield_coroutine(co);
            return false;
        }
        true
    });
    assert_eq!(flow, SchedFlow::Yield);
    assert_eq!(events, vec![Event::Ran(10), Event::Ran(20), Event::Dropped(20)]);
}

#[test]
fn deadlocked_task_is_aborted() {
    let mut task = Task::new(1, 10);
    let mut mailbox = Mailbox::new();
    let mut aborted = false;
    let progress = task.sched(&mut mailbox);
    let (flow, events) = sched(&mut task, &mut mailbox, progress, &[], |task, _, co| {
        if aborted {
            return true;
        }
        aborted = true;
        task.suspend(co, 100);
        false
    });
    assert_eq!(flow, SchedFlow::Cease);
    assert_eq!(events, vec![Event::Ran(10), Event::Interrupted(100, DEADLOCK), Event::Ran(10), Event::Dropped(10)]);
    assert_eq!(DEADLOCK, "deadlock suspending coroutines");
}

#[test]
fn blocked_task_sleeps_until_woken() {
    let mut task = Task::new(1, 10);
    let mut mailbox = Mailbox::new();
    let progress = task.sched(&mut mailbox);
    let (flow, _) = sched(&mut task, &mut mailbox, progress, &[], |task, _, co| {
        task.block(co, 100);
        false
    });
    assert_eq!(flow, SchedFlow::Block);
    assert!(mailbox.wake(10));
    assert!(!mailbox.wake(99));
    assert!(!mailbox.grab());
    let progress = task.sched(&mut mailbox);
    let (flow, events) = sched(&mut task, &mut mailbox, progress, &[], |_, _, _| true);
    assert_eq!(flow, SchedFlow::Cease);
    assert_eq!(events, vec![Event::Ran(10), Event::Dropped(10)]);
}

#[test]
fn wakeup_during_a_run_yields() {
    let mut task = Task::new(1, 10);
    let mut mailbox = Mailbox::new();
    let progress = task.sched(&mut mailbox);
    let (flow, _) = sched(&mut task, &mut mailbox, progress, &[], |task, mailbox, co| {
        task.block(co, 100);
        assert!(!mailbox.wake(co));
        false
    });
    assert_eq!(flow, SchedFlow::Yield);
}

#[test]
fn sleeping_task_can_be_grabbed_once() {
    let mut task = Task::new(1, 10);
    let mut mailbox = Mailbox::new();
    let progress = task.sched(&mut mailbox);
    let (flow, _) = sched(&mut task, &mut mailbox, progress, &[], |task, _, co| {
        task.block(co, 100);
        false
    });
    assert_eq!(flow, SchedFlow::Block);
    assert!(mailbox.grab());
    assert!(!mailbox.grab());
    task.spawn(20);
    let progress = task.stop("runtime stopped");
    let (flow, events) = sched(&mut task, &mut mailbox, progress, &[], |_, _, _| true);
    assert_eq!(flow, SchedFlow::Cease);
    assert_eq!(
        events,
        vec![Event::Interrupted(100, "runtime stopped"), Event::Ran(10), Event::Dropped(10), Event::Dropped(20)]
    );
}

#[test]
fn abortion_snoozes_for_a_lost_wakeup() {
    let mut task = Task::new(1, 50);
    let mut mailbox = Mailbox::new();
    let progress = task.sched(&mut mailbox);
    let (flow, _) = sched(&mut task, &mut mailbox, progress, &[], |task, _, co| {
        task.block(co, 100);
        false
    });
    assert_eq!(flow, SchedFlow::Block);
    let progress = task.stop("stop");
    let (flow, events) = sched(&mut task, &mut mailbox, progress, &[100], |_, _, _| true);
    assert_eq!(flow, SchedFlow::Cease);
    assert_eq!(
        events,
        vec![
            Event::Interrupted(100, "stop"),
            Event::Snoozed,
            Event::Interrupted(100, "stop"),
            Event::Ran(50),
            Event::Dropped(50),
        ]
    );
}

#[test]
fn unblocking_keeps_order_and_ignores_strangers() {
    let mut task = Task::new(1, 10);
    let mut mailbox = Mailbox::new();
    for co in [11, 12, 13] {
        task.block(co, co + 100);
    }
    assert!(!mailbox.wake(13));
    assert!(!mailbox.wake(77));
    assert!(!mailbox.wake(11));
    assert!(task.unblock(&mut mailbox, true));
    assert!(!task.unblock(&mut mailbox, true));
    let progress = task.sched(&mut mailbox);
    let (_, events) = sched(&mut task, &mut mailbox, progress, &[], |_, _, co| co != 10);
    assert_eq!(
        events[..5],
        [Event::Ran(13), Event::Dropped(13), Event::Ran(11), Event::Dropped(11), Event::Ran(10)]
    );
}

#[test]
fn resume_ignores_who_is_not_suspended() {
    let mut task = Task::new(1, 10);
    let mut mailbox = Mailbox::new();
    task.resume(10);
    let progress = task.sched(&mut mailbox);
    let (_, events) = sched(&mut task, &mut mailbox, progress, &[], |_, _, _| true);
    assert_eq!(events, vec![Event::Ran(10), Event::Dropped(10)]);
}
