use std::cell::RefCell;
use std::collections::{HashMap, VecDeque};
use std::rc::Rc;

use stuck::channel::parallel;
use stuck::channel::parallel::state::Wakeup as ChannelWakeup;
use stuck::coroutine::suspension;
use stuck::error::{join_result, JoinError, PanicError};
use stuck::runtime::{SchedulerState, Serve, Serving};
use stuck::select::{self, thread, Branch, Identifier, Permit, Selector, Trying};
use stuck::task::session::{self, JoinFlow, SessionJoiner};
use stuck::task::{Mailbox, SchedFlow, Step, Task};

type P = &'static str;
type Result = std::result::Result<i32, PanicError<P>>;

/// Gives up with the panic of what was joined.
fn unwrap(result: Result) -> i32 {
    match join_result(result) {
        Ok(value) => value,
        Err(err) => panic!("{}", err.to_debug_string()),
    }
}

type SessionJoint = Rc<RefCell<session::SessionJoint<i32, P, (u64, u64), u64>>>;

struct Session {
    joint: SessionJoint,
    session: Option<session::Session>,
}

struct SessionWaker {
    joint: SessionJoint,
    waker: session::SessionWaker,
}

fn new_session() -> (Session, SessionWaker) {
    let (joint, session, waker) = session::session();
    let joint = Rc::new(RefCell::new(joint));
    (Session { joint: joint.clone(), session: Some(session) }, SessionWaker { joint, waker })
}

type SuspensionJoint = Rc<RefCell<suspension::SuspensionJoint<i32, P, u64, u64>>>;

struct Suspension {
    joint: SuspensionJoint,
    suspension: Option<suspension::Suspension>,
}

struct Resumption {
    joint: SuspensionJoint,
    resumption: suspension::Resumption,
}

fn new_suspension() -> (Suspension, Resumption) {
    let (joint, suspension, resumption) = suspension::suspension();
    let joint = Rc::new(RefCell::new(joint));
    (Suspension { joint: joint.clone(), suspension: Some(suspension) }, Resumption { joint, resumption })
}

/// What a coroutine does each time it runs. It gives its result when it completes.
type Main = Box<dyn FnMut(&mut Context) -> Option<Result>>;

/// What becomes of the result of a coroutine.
type Finish = Box<dyn FnOnce(&mut Context, Result)>;

struct Runtime {
    scheduler: SchedulerState<()>,
    tasks: HashMap<u64, (Task, Mailbox)>,
    coroutines: HashMap<u64, (Main, Finish)>,
    next: u64,
}

struct Context<'a> {
    runtime: &'a mut Runtime,
    task: &'a mut Task,
    mailbox: &'a mut Mailbox,
    co: u64,
}

impl Runtime {
    fn new() -> Self {
        Runtime {
            scheduler: SchedulerState::new(),
            tasks: HashMap::new(),
            coroutines: HashMap::new(),
            next: 1,
        }
    }

    fn identity(&mut self) -> u64 {
        self.next += 1;
        self.next
    }

    fn spawn(&mut self, f: impl FnMut(&mut Context) -> Option<Result> + 'static) -> Session {
        let (session, waker) = new_session();
        let co = self.identity();
        let finish: Finish = Box::new(move |cx: &mut Context, result| {
            let joiner = waker.waker.set_result(&mut waker.joint.borrow_mut(), result);
            cx.wake_joiner(joiner);
        });
        self.coroutines.insert(co, (Box::new(f), finish));
        let id = self.identity();
        self.tasks.insert(id, (Task::new(id, co), Mailbox::new()));
        self.scheduler.sched(id, ());
        session
    }

    fn wake_joiner(&mut self, joiner: Option<SessionJoiner<(u64, u64), u64>>) {
        if let Some(SessionJoiner::Task { task: (id, co) }) = joiner {
            if self.tasks.get_mut(&id).unwrap().1.wake(co) {
                self.scheduler.resume(id);
            }
        }
    }

    /// Serves till there is nothing to run.
    fn run(&mut self) {
        let mut serving = Serving::Running;
        loop {
            let (serve, next) = self.scheduler.serve(serving, 1, &|_| unreachable!("not stopped"));
            serving = next;
            match serve {
                Serve::Run(id) => {
                    let flow = self.run_task(id);
                    self.scheduler.ran(id, flow);
                    if flow == SchedFlow::Cease {
                        self.tasks.remove(&id);
                    }
                }
                _ => {
                    assert_eq!(serve, Serve::Wait);
                    return;
                }
            }
        }
    }

    fn run_task(&mut self, id: u64) -> SchedFlow {
        let (mut task, mut mailbox) = self.tasks.remove(&id).unwrap();
        let mut progress = task.sched(&mut mailbox);
        let flow = loop {
            progress = match task.step(progress, &mut mailbox, &|_, _| true) {
                Step::Run { co, progress } => {
                    let (mut main, finish) = self.coroutines.remove(&co).unwrap();
                    let mut cx = Context { runtime: &mut *self, task: &mut task, mailbox: &mut mailbox, co };
                    let completed = match main(&mut cx) {
                        Some(result) => {
                            finish(&mut cx, result);
                            true
                        }
                        None => {
                            self.coroutines.insert(co, (main, finish));
                            false
                        }
                    };
                    task.ran(co, completed, progress).1
                }
                Step::Snooze { .. } => unreachable!("everything can be interrupted"),
                Step::Drop { coroutines, progress } => {
                    for co in coroutines {
                        self.coroutines.remove(&co);
                    }
                    progress
                }
                Step::Done(flow) => break flow,
            };
        };
        self.tasks.insert(id, (task, mailbox));
        flow
    }

    /// Joins on the thread of the test after everything has run.
    fn join(&mut self, session: Session) -> i32 {
        self.run();
        let joiner = SessionJoiner::Thread { thread: 0 };
        match session.session.unwrap().wait(&mut session.joint.borrow_mut(), joiner) {
            JoinFlow::Ready { value } => unwrap(value.into_result()),
            JoinFlow::Wait => panic!("not woken"),
        }
    }
}

impl Context<'_> {
    fn wake_joiner(&mut self, joiner: Option<SessionJoiner<(u64, u64), u64>>) {
        match joiner {
            Some(SessionJoiner::Task { task: (id, co) }) if id == self.task.id() => {
                assert!(!self.mailbox.wake(co));
            }
            joiner => self.runtime.wake_joiner(joiner),
        }
    }

    fn wake_coroutine(&mut self, wakeup: suspension::Wakeup<u64, u64>) {
        if let suspension::Wakeup::Coroutine(co) = wakeup {
            self.task.resume(co);
        }
    }

    /// Gives the value of a session, or blocks for it.
    fn wait(&mut self, session: &mut Session) -> Option<Result> {
        let mut joint = session.joint.borrow_mut();
        let flow = match session.session.take() {
            Some(session) => session.wait(&mut joint, SessionJoiner::Task { task: (self.task.id(), self.co) }),
            None => joint.join_again(),
        };
        match flow {
            JoinFlow::Ready { value } => Some(value.into_result()),
            JoinFlow::Wait => {
                self.task.block(self.co, self.co);
                None
            }
        }
    }

    /// Gives the value of a suspension, or suspends for it.
    fn suspend(&mut self, suspension: &mut Suspension) -> Option<Result> {
        let mut joint = suspension.joint.borrow_mut();
        let Some(suspension) = suspension.suspension.take() else {
            return Some(joint.take());
        };
        match suspension.suspend(&mut joint, self.co) {
            suspension::Joining::Done(result) => Some(result),
            suspension::Joining::Suspend => {
                self.task.suspend(self.co, self.co);
                None
            }
        }
    }

    fn spawn(&mut self, f: impl FnMut(&mut Context) -> Option<Result> + 'static) -> Suspension {
        let (suspension, resumption) = new_suspension();
        let co = self.runtime.identity();
        let finish: Finish = Box::new(move |cx: &mut Context, result| {
            let wakeup = resumption.resumption.set_result(&mut resumption.joint.borrow_mut(), result);
            cx.wake_coroutine(wakeup);
        });
        self.runtime.coroutines.insert(co, (Box::new(f), finish));
        self.task.spawn(co);
        suspension
    }

    fn resume(&mut self, resumption: Resumption, value: i32) -> bool {
        let (resumed, wakeup) = resumption.resumption.resume(&mut resumption.joint.borrow_mut(), value);
        self.wake_coroutine(wakeup);
        resumed
    }

    fn wake(&mut self, waker: SessionWaker, value: i32) -> bool {
        let wakeup = waker.waker.wake(&mut waker.joint.borrow_mut(), value);
        self.wake_joiner(wakeup.joiner);
        wakeup.waked
    }
}

#[test]
fn test_runtime_spawn() {
    let mut runtime = Runtime::new();
    let five = runtime.spawn(|_| Some(Ok(5)));
    assert_eq!(5, runtime.join(five));
}

#[test]
fn test_task_spawn() {
    let mut runtime = Runtime::new();
    let mut five = None;
    let five = runtime.spawn(move |cx| {
        let five = five.get_or_insert_with(|| cx.runtime.spawn(|_| Some(Ok(5))));
        cx.wait(five)
    });
    assert_eq!(5, runtime.join(five));
}

#[test]
fn test_task_session() {
    let mut runtime = Runtime::new();
    let mut waiting = None;
    let five = runtime.spawn(move |cx| {
        let session = waiting.get_or_insert_with(|| {
            let (session, waker) = new_session();
            let mut waker = Some(waker);
            cx.runtime.spawn(move |cx| {
                assert!(cx.wake(waker.take().unwrap(), 5));
                Some(Ok(0))
            });
            session
        });
        cx.wait(session)
    });
    assert_eq!(5, runtime.join(five));
}

#[test]
#[should_panic(expected = "session: no wakeup")]
fn test_task_session_no_wakeup() {
    let mut runtime = Runtime::new();
    let mut waiting = None;
    let five = runtime.spawn(move |cx| {
        let session = waiting.get_or_insert_with(|| {
            let (session, waker) = new_session();
            let mut waker = Some(waker);
            cx.runtime.spawn(move |cx| {
                let waker = waker.take().unwrap();
                let joiner = waker.waker.close(&mut waker.joint.borrow_mut());
                cx.wake_joiner(joiner);
                Some(Ok(0))
            });
            session
        });
        cx.wait(session)
    });
    assert_eq!(5, runtime.join(five));
}

#[test]
fn test_task_session_waked_by_thread() {
    let mut runtime = Runtime::new();
    let sender = Rc::new(RefCell::new(VecDeque::new()));
    let receiver = sender.clone();
    let mut waiting = None;
    let five = runtime.spawn(move |cx| {
        let session = waiting.get_or_insert_with(|| {
            let (session, waker) = new_session();
            sender.borrow_mut().push_back(waker);
            session
        });
        cx.wait(session)
    });
    runtime.run();
    let waker = receiver.borrow_mut().pop_front().unwrap();
    let wakeup = waker.waker.wake(&mut waker.joint.borrow_mut(), 5);
    assert!(wakeup.waked);
    runtime.wake_joiner(wakeup.joiner);
    assert_eq!(5, runtime.join(five));
}

#[test]
fn test_coroutine_spawn() {
    let mut runtime = Runtime::new();
    let mut joining = None;
    let five = runtime.spawn(move |cx| {
        let suspension = joining.get_or_insert_with(|| cx.spawn(|_| Some(Ok(5))));
        cx.suspend(suspension)
    });
    assert_eq!(5, runtime.join(five));
}

#[test]
fn test_coroutine_suspension() {
    let mut runtime = Runtime::new();
    let mut suspending = None;
    let five = runtime.spawn(move |cx| {
        let suspension = suspending.get_or_insert_with(|| {
            let (suspension, resumption) = new_suspension();
            let mut resumption = Some(resumption);
            cx.spawn(move |cx| {
                assert!(cx.resume(resumption.take().unwrap(), 5));
                Some(Ok(0))
            });
            suspension
        });
        cx.suspend(suspension)
    });
    assert_eq!(5, runtime.join(five));
}

#[test]
#[should_panic(expected = "suspend: no resumption")]
fn test_coroutine_suspension_no_wakeup() {
    let mut runtime = Runtime::new();
    let mut suspending = None;
    let five = runtime.spawn(move |cx| {
        let suspension = suspending.get_or_insert_with(|| {
            let (suspension, resumption) = new_suspension();
            let mut resumption = Some(resumption);
            cx.spawn(move |cx| {
                let resumption = resumption.take().unwrap();
                let wakeup = resumption.resumption.close(&mut resumption.joint.borrow_mut());
                cx.wake_coroutine(wakeup);
                Some(Ok(0))
            });
            suspension
        });
        cx.suspend(suspension)
    });
    assert_eq!(5, runtime.join(five));
}

#[test]
fn test_twenty() {
    let mut runtime = Runtime::new();
    let mut all = None;
    let mut values = Vec::new();
    let twenty = runtime.spawn(move |cx| {
        let (session, suspension, five_coroutine, five_task) = all.get_or_insert_with(|| {
            let five_coroutine = cx.spawn(|_| Some(Ok(5)));

            let (suspension, resumption) = new_suspension();
            let mut resumption = Some(resumption);
            cx.spawn(move |cx| {
                cx.resume(resumption.take().unwrap(), 5);
                Some(Ok(0))
            });

            let five_task = cx.runtime.spawn(|_| Some(Ok(5)));

            let (session, waker) = new_session();
            let mut waker = Some(waker);
            cx.runtime.spawn(move |cx| {
                cx.wake(waker.take().unwrap(), 5);
                Some(Ok(0))
            });
            (session, suspension, five_coroutine, five_task)
        });
        loop {
            let value = match values.len() {
                0 => cx.wait(session)?,
                1 => cx.suspend(suspension)?,
                2 => cx.suspend(five_coroutine)?,
                3 => cx.wait(five_task)?,
                _ => return Some(Ok(values.iter().sum())),
            };
            values.push(unwrap(value));
        }
    });
    assert_eq!(20, runtime.join(twenty));
}

#[test]
fn panic() {
    const REASON: &'static str = "oooooops";
    let mut runtime = Runtime::new();
    let session = runtime.spawn(|_| {
        Some(Err(PanicError::Unwind { object: REASON, text: Ok(REASON.to_string()) }))
    });
    runtime.run();
    let joiner = SessionJoiner::Thread { thread: 0 };
    let JoinFlow::Ready { value } = session.session.unwrap().wait(&mut session.joint.borrow_mut(), joiner) else {
        panic!("not woken");
    };
    let err: JoinError<P> = join_result(value.into_result()).err().unwrap();
    assert!(err.to_string().contains(REASON))
}

#[test]
fn unpark_concurrent_in_task() {
    let mut runtime = Runtime::new();
    let (state, parker, unparker) = thread::parker::<(), P>();
    let state = Rc::new(RefCell::new(state));
    let unparked = Rc::new(RefCell::new(Vec::new()));
    let mut tasks = Vec::new();
    for _ in 0..2 {
        let state = state.clone();
        let unparked = unparked.clone();
        let mut other = Some(unparker.another(&mut state.borrow_mut()));
        tasks.push(runtime.spawn(move |_| {
            let other = other.take().unwrap();
            unparked.borrow_mut().push(other.unpark((), &mut state.borrow_mut()));
            Some(Ok(0))
        }));
    }
    runtime.run();
    assert!(matches!(parker.park(&mut state.borrow_mut()), thread::Parking::Ready(())));
    assert_ne!(unparked.borrow()[0], unparked.borrow()[1]);
}

#[test]
#[should_panic(expected = "all unparkers dropped")]
fn unparker_dropped() {
    let (mut state, parker, unparker) = thread::parker::<(), P>();
    let other = unparker.another(&mut state);
    assert!(!other.close(&mut state));
    assert!(unparker.close(&mut state));
    if let thread::Parking::Panic(err) = parker.park(&mut state) {
        panic!("{}", err.as_str().unwrap());
    }
}

#[test]
#[should_panic(expected = "all selectables are disabled or completed")]
fn select_disabled() {
    let mut trying = Trying::new(0, 1);
    assert_eq!(trying.next(), Some(0));
    assert_eq!(trying.next(), None);
    assert_eq!(trying.finish(), select::TrySelectError::Completed);
    if let Branch::Panic = select::branch(None, false) {
        panic!("{}", select::NOTHING_TO_SELECT);
    }
}

/// Selectors that were woken, with their permits.
type Selected = RefCell<VecDeque<(u32, Permit)>>;

#[test]
fn select_concurrent_recv() {
    let selected = Selected::default();
    let wake = |waker: u32, wakeup: ChannelWakeup<()>| match wakeup {
        ChannelWakeup::Select { permit, .. } => {
            selected.borrow_mut().push_back((waker, permit.into_select()));
            true
        }
        _ => false,
    };
    let (mut channel, mut sender, receiver) = parallel::bounded::<(), u32>(5);
    let mut receivers = [receiver.another(&mut channel), receiver];
    for (i, receiver) in receivers.iter().enumerate() {
        assert!(receiver.select_permit(&mut channel).is_err());
        let selector = Selector::new(0, i as u32, Identifier::new(i as u64));
        assert!(!receiver.watch_permit(&mut channel, selector, &wake));
    }
    assert!(matches!(sender.send(&mut channel, (), &wake), parallel::Sending::Done(Ok(()))));
    sender.close(&mut channel, &wake);
    let mut results = [false, false];
    for _ in 0..2 {
        let (i, permit) = selected.borrow_mut().pop_front().unwrap();
        let received = receivers[i as usize].consume_permit(&mut channel, permit, &wake);
        results[i as usize] = received.is_some();
    }
    let [result1, result2] = results;
    assert_eq!(result1 & result2, false);
    assert_eq!(result1 | result2, true);
}

#[test]
fn select_concurrent_send() {
    let selected = Selected::default();
    let wake = |waker: u32, wakeup: ChannelWakeup<()>| match wakeup {
        ChannelWakeup::Select { permit, .. } => {
            selected.borrow_mut().push_back((waker, permit.into_select()));
            true
        }
        _ => false,
    };
    let (mut channel, mut sender, mut receiver) = parallel::bounded::<(), u32>(1);
    let mut other = sender.another(&mut channel);
    let permit = sender.select_permit(&mut channel).unwrap();
    assert!(other.select_permit(&mut channel).is_err());
    assert!(!other.watch_permit(&mut channel, Selector::new(0, 1, Identifier::new(1)), &wake));
    let result1 = sender.consume_permit(&mut channel, permit, (), &wake).is_ok();
    receiver.close(&mut channel, &wake);
    let (waker, permit) = selected.borrow_mut().pop_front().unwrap();
    assert_eq!(waker, 1);
    let result2 = other.consume_permit(&mut channel, permit, (), &wake).is_ok();
    assert!(matches!(receiver.recv(&mut channel, &wake), parallel::Receiving::Done(Some(()))));
    assert!(matches!(receiver.recv(&mut channel, &wake), parallel::Receiving::Done(None)));
    assert!(receiver.is_drained());
    assert_eq!(result1 & result2, false);
    assert_eq!(result1 | result2, true);
}
