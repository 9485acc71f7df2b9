//! Concurrent tasks of cooperative coroutines.
//!
//! Coroutines and their yielding points go by identities here. A task decides which coroutine to
//! run next; running it, and what it does meanwhile, is left to the caller.

pub mod mpsc;
pub mod session;
pub mod waiting;

use std::collections::VecDeque;

use vstd::prelude::*;

use self::waiting::Waiting;

verus! {

/// Wakeups of a task by others, to be guarded by a lock.
pub struct Mailbox {
    running: bool,
    unblocking: Vec<u64>,
}

/// Values of [Mailbox].
#[verifier::ext_equal]
pub struct MailboxView {
    /// Whether the task is running or scheduled to run.
    pub running: bool,
    /// Coroutines unblocked by events from outside the task.
    pub unblocking: Seq<u64>,
}

impl View for Mailbox {
    type V = MailboxView;

    closed spec fn view(&self) -> MailboxView {
        MailboxView { running: self.running, unblocking: self.unblocking@ }
    }
}

impl MailboxView {
    /// A task does not sleep while there is a coroutine to unblock.
    pub open spec fn inv(self) -> bool {
        !self.running ==> self.unblocking.len() == 0
    }

    pub open spec fn after_wake(self, co: u64) -> Self {
        MailboxView { running: true, unblocking: self.unblocking.push(co) }
    }
}

impl Mailbox {
    /// Mailbox of a new task, which is to be scheduled.
    pub fn new() -> (mailbox: Self)
        ensures
            mailbox@.inv(),
            mailbox@ == (MailboxView { running: true, unblocking: Seq::empty() }),
    {
        Mailbox { running: true, unblocking: Vec::new() }
    }

    /// Grabs the task to run. Returns false if a waker was first.
    pub fn grab(&mut self) -> (grabbed: bool)
        requires
            old(self)@.inv(),
        ensures
            final(self)@.inv(),
            final(self)@ == (MailboxView { running: true, ..old(self)@ }),
            grabbed == !old(self)@.running,
    {
        let running = self.running;
        self.running = true;
        !running
    }

    /// Unblocks a coroutine. Returns true if the task has to be scheduled for it.
    pub fn wake(&mut self, co: u64) -> (waking: bool)
        requires
            old(self)@.inv(),
        ensures
            final(self)@.inv(),
            final(self)@ == old(self)@.after_wake(co),
            waking == !old(self)@.running,
    {
        let waking = if self.unblocking.len() == 0 && !self.running {
            self.running = true;
            true
        } else {
            false
        };
        self.unblocking.push(co);
        waking
    }
}

/// What becomes of a task after it was scheduled.
#[derive(Debug, Clone, Copy, PartialEq, Eq, Structural)]
pub enum SchedFlow {
    /// Schedule it again.
    Yield,
    /// Schedule it once someone wakes it.
    Block,
    /// It is over.
    Cease,
}

/// Values of [Task].
#[verifier::ext_equal]
pub struct TaskView {
    pub id: u64,
    /// The task terminates after its main coroutine.
    pub main: u64,
    pub aborting: bool,
    pub yielding: bool,
    /// Newly spawned coroutines.
    pub spawned: Seq<u64>,
    /// Coroutines to run.
    pub running: Seq<u64>,
    /// Coroutines that yielded in this run.
    pub yieldings: Seq<u64>,
    /// Coroutines that wait for events inside the task.
    pub suspending: Map<u64, u64>,
    /// Coroutines that wait for events outside the task.
    pub blocking: Map<u64, u64>,
}

/// Coroutines among waiting ones.
pub open spec fn coroutines(pairs: Seq<(u64, u64)>) -> Seq<u64> {
    pairs.map_values(|pair: (u64, u64)| pair.0)
}

/// Whether the yielding point has been told to interrupt.
pub open spec fn told<F: Fn(u64, &'static str) -> bool>(
    interrupt: F,
    yielding: u64,
    msg: &'static str,
) -> bool {
    exists|interrupted: bool| #[trigger] call_ensures(interrupt, (yielding, msg), interrupted)
}

impl TaskView {
    /// A task that is to run its main coroutine.
    pub open spec fn new(id: u64, main: u64) -> Self {
        TaskView {
            id,
            main,
            aborting: false,
            yielding: false,
            spawned: seq![main],
            running: Seq::empty(),
            yieldings: Seq::empty(),
            suspending: waiting::nobody(),
            blocking: waiting::nobody(),
        }
    }

    /// The task after `co` was unblocked, if it was blocking.
    pub open spec fn unblocked_one(self, co: u64) -> Self {
        if self.blocking.dom().contains(co) {
            TaskView { blocking: self.blocking.remove(co), running: self.running.push(co), ..self }
        } else {
            self
        }
    }

    /// The task after coroutines were unblocked in turn.
    pub open spec fn unblocked(self, cos: Seq<u64>) -> Self
        decreases cos.len(),
    {
        if cos.len() == 0 {
            self
        } else {
            self.unblocked(cos.drop_last()).unblocked_one(cos.last())
        }
    }

    /// The task and its mailbox after unblocking what the mailbox holds.
    pub open spec fn emptied(self, mailbox: MailboxView) -> (Self, MailboxView) {
        if self.blocking == waiting::nobody() {
            (self, mailbox)
        } else {
            (
                self.unblocked(mailbox.unblocking),
                MailboxView { unblocking: Seq::empty(), ..mailbox },
            )
        }
    }

    /// The task at the start of a run.
    pub open spec fn started(self) -> Self {
        TaskView {
            spawned: Seq::empty(),
            yieldings: Seq::empty(),
            running: self.running + self.spawned + self.yieldings,
            ..self
        }
    }

    /// The task after its coroutines were interrupted but those in `left`.
    pub open spec fn after_interrupt(
        self,
        suspended: Seq<(u64, u64)>,
        blocked: Seq<(u64, u64)>,
        left: Map<u64, u64>,
    ) -> Self {
        TaskView {
            running: self.running + self.yieldings + coroutines(suspended) + coroutines(blocked),
            yieldings: Seq::empty(),
            suspending: waiting::nobody(),
            blocking: left,
            ..self
        }
    }

    /// Whether all coroutines that wait have been interrupted, and are to run, but those blocking
    /// ones that lost to a wakeup, which are to run as far as the wakeup has arrived.
    pub open spec fn interrupts<F: Fn(u64, &'static str) -> bool>(
        self,
        mailbox: MailboxView,
        msg: &'static str,
        interrupt: F,
        suspended: Seq<(u64, u64)>,
        blocked: Seq<(u64, u64)>,
        left: Map<u64, u64>,
        after: (Self, MailboxView),
    ) -> bool {
        &&& waiting::enumerates(suspended, self.suspending)
        &&& forall|i: int|
            0 <= i < suspended.len() ==> told(interrupt, (#[trigger] suspended[i]).1, msg)
        &&& left.submap_of(self.blocking)
        &&& waiting::enumerates(blocked, self.blocking.remove_keys(left.dom()))
        &&& forall|co: u64| #[trigger]
            self.blocking.dom().contains(co) ==> call_ensures(
                interrupt,
                (self.blocking[co], msg),
                !left.dom().contains(co),
            )
        &&& after == self.after_interrupt(suspended, blocked, left).emptied(mailbox)
    }

    /// Whether nothing is left to run or to wait for.
    pub open spec fn over(self) -> bool {
        &&& self.spawned.len() == 0
        &&& self.running.len() == 0
        &&& self.yieldings.len() == 0
        &&& self.suspending == waiting::nobody()
        &&& self.blocking == waiting::nobody()
    }
}

pub struct Task {
    id: u64,
    main: u64,
    aborting: bool,
    yielding: bool,
    spawned: Vec<u64>,
    running: VecDeque<u64>,
    yieldings: Vec<u64>,
    suspending: Waiting,
    blocking: Waiting,
}

impl View for Task {
    type V = TaskView;

    closed spec fn view(&self) -> TaskView {
        TaskView {
            id: self.id,
            main: self.main,
            aborting: self.aborting,
            yielding: self.yielding,
            spawned: self.spawned@,
            running: self.running@,
            yieldings: self.yieldings@,
            suspending: self.suspending@,
            blocking: self.blocking@,
        }
    }
}

impl Task {
    /// Constructs a task that is to run its main coroutine.
    pub fn new(id: u64, main: u64) -> (task: Self)
        ensures
            task@ == TaskView::new(id, main),
    {
        let mut spawned: Vec<u64> = Vec::new();
        spawned.push(main);
        Task {
            id,
            main,
            aborting: false,
            yielding: false,
            spawned,
            running: VecDeque::with_capacity(5),
            yieldings: Vec::with_capacity(5),
            suspending: Waiting::new(),
            blocking: Waiting::new(),
        }
    }

    pub fn id(&self) -> (id: u64)
        ensures
            id == self@.id,
    {
        self.id
    }

    /// Moves coroutines of the mailbox to run. Returns false, and lets the task sleep if `block`,
    /// when there is none.
    pub fn unblock(&mut self, mailbox: &mut Mailbox, block: bool) -> (unblocked: bool)
        requires
            old(mailbox)@.inv(),
        ensures
            final(mailbox)@.inv(),
            if old(self)@.blocking == waiting::nobody() {
                &&& !unblocked
                &&& final(self)@ == old(self)@
                &&& final(mailbox)@ == old(mailbox)@
            } else if block && old(mailbox)@.unblocking.len() == 0 {
                &&& !unblocked
                &&& final(self)@ == old(self)@
                &&& final(mailbox)@ == (MailboxView { running: false, ..old(mailbox)@ })
            } else {
                &&& unblocked
                &&& (final(self)@, final(mailbox)@) == old(self)@.emptied(old(mailbox)@)
            },
    {
        if self.blocking.is_empty() {
            return false;
        }
        let mut unblocked: Vec<u64> = Vec::new();
        core::mem::swap(&mut unblocked, &mut mailbox.unblocking);
        if block && unblocked.len() == 0 {
            mailbox.running = false;
            return false;
        }
        let mut i: usize = 0;
        while i < unblocked.len()
            invariant
                i <= unblocked@.len(),
                unblocked@ == old(mailbox)@.unblocking,
                self@ == old(self)@.unblocked(unblocked@.take(i as int)),
            decreases unblocked@.len() - i,
        {
            let co: u64 = unblocked[i];
            assert(unblocked@.take(i + 1).drop_last() =~= unblocked@.take(i as int));
            let ghost before = self@;
            if self.blocking.remove(co).is_some() {
                self.running.push_back(co);
            } else {
                assert(before.blocking.remove(co) =~= before.blocking);
            }
            assert(self@ =~= before.unblocked_one(co));
            i = i + 1;
        }
        assert(unblocked@.take(i as int) =~= unblocked@);
        true
    }

    fn interrupt<F: Fn(u64, &'static str) -> bool>(
        &mut self,
        mailbox: &mut Mailbox,
        msg: &'static str,
        interrupt: &F,
    )
        requires
            forall|yielding: u64, msg: &'static str| #[trigger]
                call_requires(*interrupt, (yielding, msg)),
            old(mailbox)@.inv(),
        ensures
            final(mailbox)@.inv(),
            exists|suspended: Seq<(u64, u64)>, blocked: Seq<(u64, u64)>, left: Map<u64, u64>|
             #[trigger]
                old(self)@.interrupts(
                    old(mailbox)@,
                    msg,
                    *interrupt,
                    suspended,
                    blocked,
                    left,
                    (final(self)@, final(mailbox)@),
                ),
    {
        let ghost before = self@;
        let mut i: usize = 0;
        while i < self.yieldings.len()
            invariant
                i <= self.yieldings@.len(),
                self@ == (TaskView {
                    running: before.running + before.yieldings.take(i as int),
                    ..before
                }),
            decreases self.yieldings@.len() - i,
        {
            self.running.push_back(self.yieldings[i]);
            assert(self.running@ =~= before.running + before.yieldings.take(i + 1));
            i = i + 1;
        }
        assert(before.yieldings.take(i as int) =~= before.yieldings);
        self.yieldings = Vec::new();
        let suspended = self.suspending.drain();
        let mut i: usize = 0;
        while i < suspended.len()
            invariant
                forall|yielding: u64, msg: &'static str| #[trigger]
                    call_requires(*interrupt, (yielding, msg)),
                i <= suspended@.len(),
                forall|k: int|
                    0 <= k < i ==> told(*interrupt, (#[trigger] suspended@[k]).1, msg),
                self@ == (TaskView {
                    running: before.running + before.yieldings + coroutines(
                        suspended@.take(i as int),
                    ),
                    yieldings: Seq::empty(),
                    suspending: waiting::nobody(),
                    ..before
                }),
            decreases suspended@.len() - i,
        {
            let (co, yielding) = suspended[i];
            let interrupted = interrupt(yielding, msg);
            assert(call_ensures(*interrupt, (suspended@[i as int].1, msg), interrupted));
            self.running.push_back(co);
            assert(coroutines(suspended@.take(i + 1)) =~= coroutines(
                suspended@.take(i as int),
            ).push(co));
            assert(self.running@ =~= before.running + before.yieldings + coroutines(
                suspended@.take(i + 1),
            ));
            i = i + 1;
        }
        assert(suspended@.take(i as int) =~= suspended@);
        let blocked = self.blocking.drain_filter(interrupt, msg);
        let ghost left = self@.blocking;
        let mut i: usize = 0;
        while i < blocked.len()
            invariant
                i <= blocked@.len(),
                self@ == (TaskView {
                    running: before.running + before.yieldings + coroutines(suspended@)
                        + coroutines(blocked@.take(i as int)),
                    yieldings: Seq::empty(),
                    suspending: waiting::nobody(),
                    blocking: left,
                    ..before
                }),
            decreases blocked@.len() - i,
        {
            let (co, _yielding) = blocked[i];
            self.running.push_back(co);
            assert(coroutines(blocked@.take(i + 1)) =~= coroutines(blocked@.take(i as int)).push(
                co,
            ));
            assert(self.running@ =~= before.running + before.yieldings + coroutines(suspended@)
                + coroutines(blocked@.take(i + 1)));
            i = i + 1;
        }
        assert(blocked@.take(i as int) =~= blocked@);
        assert(self@ =~= before.after_interrupt(suspended@, blocked@, left));
        self.unblock(mailbox, false);
        assert(before.interrupts(
            old(mailbox)@,
            msg,
            *interrupt,
            suspended@,
            blocked@,
            left,
            (self@, mailbox@),
        ));
    }
}

/// Where the run of a task is.
#[derive(Debug, Clone, Copy, PartialEq, Eq, Structural)]
pub enum Phase {
    /// About to look whether there is something to run.
    Checking,
    /// Running newly spawned coroutines, the last one first.
    Spawned,
    /// Running the others, the first one first.
    Running,
}

/// Where the abortion of a task is.
#[derive(Debug, Clone, Copy, PartialEq, Eq, Structural)]
pub enum AbortPhase {
    /// About to interrupt all that waits.
    Interrupting,
    /// Running what was interrupted.
    Running,
}

/// Where to go on after the abortion of a task.
#[derive(Debug, Clone, Copy, PartialEq, Eq, Structural)]
pub enum Aborted {
    /// The run goes on after its main coroutine has completed.
    Run { phase: Phase, completed: u64 },
    /// The run is over.
    Cease,
}

/// How far a task has come in a run.
pub enum Progress {
    Run(Phase),
    Abort { phase: AbortPhase, msg: &'static str, then: Aborted },
    Ceased,
}

/// Message to coroutines of a task whose main coroutine has completed.
pub const MAIN_TERMINATED: &'static str = "task main terminated";

/// Message to coroutines of a task that only wait for each other.
pub const DEADLOCK: &'static str = "deadlock suspending coroutines";

/// What to do next in a run.
pub enum Step {
    /// Resume this coroutine, and tell [Task::ran] whether it completed.
    Run { co: u64, progress: Progress },
    /// Someone else has won a wakeup that will arrive soon. Snooze.
    Snooze { progress: Progress },
    /// Drop these coroutines.
    Drop { coroutines: Vec<u64>, progress: Progress },
    Done(SchedFlow),
}

/// What comes next in a run that is not aborting.
pub enum Next {
    Run { co: u64, phase: Phase, task: TaskView },
    Finish,
}

impl TaskView {
    pub open spec fn next_spawned(self) -> Next {
        Next::Run {
            co: self.spawned.last(),
            phase: Phase::Spawned,
            task: TaskView { spawned: self.spawned.drop_last(), ..self },
        }
    }

    pub open spec fn next_running(self) -> Next {
        Next::Run {
            co: self.running.first(),
            phase: Phase::Running,
            task: TaskView { running: self.running.skip(1), ..self },
        }
    }

    /// What comes next: spawned coroutines until there is none, then running ones until there is
    /// none, and so on until there is neither, or the task yields.
    pub open spec fn next(self, phase: Phase) -> Next {
        let check = phase == Phase::Checking || phase == Phase::Running && self.running.len() == 0;
        if check && (self.yielding || self.spawned.len() == 0 && self.running.len() == 0) {
            Next::Finish
        } else if self.spawned.len() > 0 && (check || phase == Phase::Spawned) {
            self.next_spawned()
        } else if self.running.len() > 0 {
            self.next_running()
        } else {
            Next::Finish
        }
    }

    /// The task at the end of a run.
    pub open spec fn finished(self) -> Self {
        TaskView { yielding: false, ..self }
    }
}

impl Task {
    /// Starts a run.
    pub fn sched(&mut self, mailbox: &mut Mailbox) -> (progress: Progress)
        requires
            old(mailbox)@.inv(),
        ensures
            final(mailbox)@.inv(),
            (final(self)@, final(mailbox)@) == old(self)@.started().emptied(old(mailbox)@),
            progress == Progress::Run(Phase::Checking),
    {
        let ghost before = self@;
        let mut i: usize = 0;
        while i < self.spawned.len()
            invariant
                i <= self.spawned@.len(),
                self@ == (TaskView {
                    running: before.running + before.spawned.take(i as int),
                    ..before
                }),
            decreases self.spawned@.len() - i,
        {
            self.running.push_back(self.spawned[i]);
            assert(self.running@ =~= before.running + before.spawned.take(i + 1));
            i = i + 1;
        }
        assert(before.spawned.take(i as int) =~= before.spawned);
        self.spawned = Vec::new();
        let mut i: usize = 0;
        while i < self.yieldings.len()
            invariant
                i <= self.yieldings@.len(),
                self@ == (TaskView {
                    running: before.running + before.spawned + before.yieldings.take(i as int),
                    spawned: Seq::empty(),
                    ..before
                }),
            decreases self.yieldings@.len() - i,
        {
            self.running.push_back(self.yieldings[i]);
            assert(self.running@ =~= before.running + before.spawned + before.yieldings.take(
                i + 1,
            ));
            i = i + 1;
        }
        assert(before.yieldings.take(i as int) =~= before.yieldings);
        self.yieldings = Vec::new();
        assert(self@ =~= before.started());
        self.unblock(mailbox, false);
        Progress::Run(Phase::Checking)
    }

    fn next_run(&mut self, phase: Phase) -> (next: Option<(u64, Phase)>)
        ensures
            match old(self)@.next(phase) {
                Next::Run { co, phase, task } => next == Some((co, phase)) && final(self)@ == task,
                Next::Finish => next is None && final(self)@ == old(self)@,
            },
    {
        let mut phase = phase;
        if phase == Phase::Running && self.running.len() == 0 {
            phase = Phase::Checking;
        }
        if phase == Phase::Checking {
            if self.yielding || (self.spawned.len() == 0 && self.running.len() == 0) {
                return None;
            }
            phase = Phase::Spawned;
        }
        if phase == Phase::Spawned {
            if let Some(co) = self.spawned.pop() {
                assert(self@.spawned =~= old(self)@.spawned.drop_last());
                return Some((co, Phase::Spawned));
            }
            assert(self@ =~= old(self)@);
        }
        if let Some(co) = self.running.pop_front() {
            assert(self@.running =~= old(self)@.running.skip(1));
            return Some((co, Phase::Running));
        }
        assert(self@ =~= old(self)@);
        None
    }

    /// Finds out what to do next.
    pub fn step<F: Fn(u64, &'static str) -> bool>(
        &mut self,
        progress: Progress,
        mailbox: &mut Mailbox,
        interrupt: &F,
    ) -> (step: Step)
        requires
            forall|yielding: u64, msg: &'static str| #[trigger]
                call_requires(*interrupt, (yielding, msg)),
            old(mailbox)@.inv(),
            progress is Abort ==> old(self)@.aborting,
        ensures
            final(mailbox)@.inv(),
            match progress {
                Progress::Run(phase) => old(self)@.steps(
                    phase,
                    old(mailbox)@,
                    *interrupt,
                    (final(self)@, final(mailbox)@),
                    step,
                ),
                Progress::Abort { phase, msg, then } => old(self)@.aborts(
                    phase,
                    msg,
                    then,
                    old(mailbox)@,
                    *interrupt,
                    (final(self)@, final(mailbox)@),
                    step,
                ),
                Progress::Ceased => {
                    &&& step == Step::Done(SchedFlow::Cease)
                    &&& final(self)@ == old(self)@
                    &&& final(mailbox)@ == old(mailbox)@
                },
            },
    {
        match progress {
            Progress::Run(phase) => {
                if let Some((co, phase)) = self.next_run(phase) {
                    return Step::Run { co, progress: Progress::Run(phase) };
                }
                self.yielding = false;
                assert(self@ =~= old(self)@.finished());
                if self.yieldings.len() > 0 {
                    Step::Done(SchedFlow::Yield)
                } else if self.blocking.is_empty() {
                    if !self.suspending.is_empty() {
                        self.aborting = true;
                        self.abort(AbortPhase::Interrupting, DEADLOCK, Aborted::Cease, mailbox, interrupt)
                    } else {
                        Step::Done(SchedFlow::Cease)
                    }
                } else if self.unblock(mailbox, true) {
                    Step::Done(SchedFlow::Yield)
                } else {
                    Step::Done(SchedFlow::Block)
                }
            },
            Progress::Abort { phase, msg, then } => self.abort(phase, msg, then, mailbox, interrupt),
            Progress::Ceased => Step::Done(SchedFlow::Cease),
        }
    }

    fn abort<F: Fn(u64, &'static str) -> bool>(
        &mut self,
        phase: AbortPhase,
        msg: &'static str,
        then: Aborted,
        mailbox: &mut Mailbox,
        interrupt: &F,
    ) -> (step: Step)
        requires
            forall|yielding: u64, msg: &'static str| #[trigger]
                call_requires(*interrupt, (yielding, msg)),
            old(mailbox)@.inv(),
            old(self)@.aborting,
        ensures
            final(mailbox)@.inv(),
            old(self)@.aborts(
                phase,
                msg,
                then,
                old(mailbox)@,
                *interrupt,
                (final(self)@, final(mailbox)@),
                step,
            ),
    {
        if phase == AbortPhase::Running {
            if let Some(co) = self.running.pop_front() {
                assert(self@ =~= (TaskView { running: old(self)@.running.skip(1), ..old(self)@ }));
                return Step::Run {
                    co,
                    progress: Progress::Abort { phase: AbortPhase::Running, msg, then },
                };
            }
            assert(self@ =~= old(self)@);
        }
        self.interrupt(mailbox, msg, interrupt);
        let ghost interrupted = self@;
        let ghost (suspended, blocked, left) = choose|
            suspended: Seq<(u64, u64)>,
            blocked: Seq<(u64, u64)>,
            left: Map<u64, u64>,
        | #[trigger]
            old(self)@.interrupts(
                old(mailbox)@,
                msg,
                *interrupt,
                suspended,
                blocked,
                left,
                (interrupted, mailbox@),
            );
        if let Some(co) = self.running.pop_front() {
            assert(self@ =~= (TaskView { running: interrupted.running.skip(1), ..interrupted }));
            let step = Step::Run {
                co,
                progress: Progress::Abort { phase: AbortPhase::Running, msg, then },
            };
            assert(old(self)@.aborts_by(
                msg,
                then,
                old(mailbox)@,
                *interrupt,
                (self@, mailbox@),
                step,
                suspended,
                blocked,
                left,
                interrupted,
            ));
            return step;
        }
        assert(self@ =~= interrupted);
        if !self.blocking.is_empty() {
            let step = Step::Snooze {
                progress: Progress::Abort { phase: AbortPhase::Interrupting, msg, then },
            };
            assert(old(self)@.aborts_by(
                msg,
                then,
                old(mailbox)@,
                *interrupt,
                (self@, mailbox@),
                step,
                suspended,
                blocked,
                left,
                interrupted,
            ));
            return step;
        }
        let mut coroutines: Vec<u64> = Vec::new();
        core::mem::swap(&mut coroutines, &mut self.spawned);
        let step = match then {
            Aborted::Run { phase, completed } => {
                coroutines.push(completed);
                Step::Drop { coroutines, progress: Progress::Run(phase) }
            },
            Aborted::Cease => Step::Drop { coroutines, progress: Progress::Ceased },
        };
        assert(old(self)@.aborts_by(
            msg,
            then,
            old(mailbox)@,
            *interrupt,
            (self@, mailbox@),
            step,
            suspended,
            blocked,
            left,
            interrupted,
        ));
        step
    }

    /// Starts to abort the task for good, whatever it is at.
    pub fn stop(&mut self, msg: &'static str) -> (progress: Progress)
        ensures
            final(self)@ == (TaskView { aborting: true, ..old(self)@ }),
            progress == (Progress::Abort {
                phase: AbortPhase::Interrupting,
                msg,
                then: Aborted::Cease,
            }),
    {
        self.aborting = true;
        Progress::Abort { phase: AbortPhase::Interrupting, msg, then: Aborted::Cease }
    }

    /// Takes note that a coroutine has run in this step and whether it completed. Returns the
    /// coroutine to drop, if any. The task is aborted once its main coroutine has completed.
    pub fn ran(&mut self, co: u64, completed: bool, progress: Progress) -> (ran: (
        Option<u64>,
        Progress,
    ))
        requires
            progress is Run || old(self)@.aborting,
        ensures
            if !completed {
                &&& ran == (None::<u64>, progress)
                &&& final(self)@ == old(self)@
            } else if co == old(self)@.main && !old(self)@.aborting {
                &&& final(self)@ == (TaskView { aborting: true, ..old(self)@ })
                &&& ran == (
                    None::<u64>,
                    Progress::Abort {
                        phase: AbortPhase::Interrupting,
                        msg: MAIN_TERMINATED,
                        then: Aborted::Run { phase: progress->Run_0, completed: co },
                    },
                )
            } else {
                &&& ran == (Some(co), progress)
                &&& final(self)@ == old(self)@
            },
    {
        if !completed {
            return (None, progress);
        }
        if co == self.main && !self.aborting {
            self.aborting = true;
            let phase = match progress {
                Progress::Run(phase) => phase,
                _ => Phase::Checking,
            };
            return (
                None,
                Progress::Abort {
                    phase: AbortPhase::Interrupting,
                    msg: MAIN_TERMINATED,
                    then: Aborted::Run { phase, completed: co },
                },
            );
        }
        (Some(co), progress)
    }

    /// Lets a suspended coroutine run again.
    pub fn resume(&mut self, co: u64)
        ensures
            final(self)@ == if old(self)@.suspending.dom().contains(co) {
                (TaskView {
                    suspending: old(self)@.suspending.remove(co),
                    running: old(self)@.running.push(co),
                    ..old(self)@
                })
            } else {
                old(self)@
            },
    {
        if self.suspending.remove(co).is_some() {
            self.running.push_back(co);
        } else {
            assert(old(self)@.suspending.remove(co) =~= old(self)@.suspending);
        }
    }

    /// Suspends the running coroutine for events inside the task.
    pub fn suspend(&mut self, co: u64, yielding: u64)
        ensures
            final(self)@ == (TaskView {
                suspending: old(self)@.suspending.insert(co, yielding),
                ..old(self)@
            }),
    {
        self.suspending.insert(co, yielding);
    }

    /// Blocks the running coroutine for events outside the task.
    pub fn block(&mut self, co: u64, yielding: u64)
        ensures
            final(self)@ == (TaskView {
                blocking: old(self)@.blocking.insert(co, yielding),
                ..old(self)@
            }),
    {
        self.blocking.insert(co, yielding);
    }

    /// Yields the running coroutine for next scheduling cycle.
    pub fn yield_coroutine(&mut self, co: u64)
        ensures
            final(self)@ == (TaskView {
                yieldings: old(self)@.yieldings.push(co),
                ..old(self)@
            }),
    {
        self.yieldings.push(co);
    }

    /// Yields the task, with its running coroutine, for next scheduling cycle.
    pub fn yield_task(&mut self, co: u64)
        ensures
            final(self)@ == (TaskView {
                yielding: true,
                yieldings: old(self)@.yieldings.push(co),
                ..old(self)@
            }),
    {
        self.yielding = true;
        self.yield_coroutine(co);
    }

    /// Adds a new coroutine.
    pub fn spawn(&mut self, co: u64)
        ensures
            final(self)@ == (TaskView { spawned: old(self)@.spawned.push(co), ..old(self)@ }),
    {
        self.spawned.push(co);
    }
}

impl TaskView {
    /// Whether a run goes one step as it should.
    pub open spec fn steps<F: Fn(u64, &'static str) -> bool>(
        self,
        phase: Phase,
        mailbox: MailboxView,
        interrupt: F,
        after: (Self, MailboxView),
        step: Step,
    ) -> bool {
        match self.next(phase) {
            Next::Run { co, phase, task } => {
                &&& step == (Step::Run { co, progress: Progress::Run(phase) })
                &&& after == (task, mailbox)
            },
            Next::Finish => if self.yieldings.len() > 0 {
                &&& step == Step::Done(SchedFlow::Yield)
                &&& after == (self.finished(), mailbox)
            } else if self.blocking == waiting::nobody() {
                if self.suspending == waiting::nobody() {
                    &&& step == Step::Done(SchedFlow::Cease)
                    &&& after == (self.finished(), mailbox)
                } else {
                    TaskView { aborting: true, ..self.finished() }.aborts(
                        AbortPhase::Interrupting,
                        DEADLOCK,
                        Aborted::Cease,
                        mailbox,
                        interrupt,
                        after,
                        step,
                    )
                }
            } else if mailbox.unblocking.len() > 0 {
                &&& step == Step::Done(SchedFlow::Yield)
                &&& after == self.finished().emptied(mailbox)
            } else {
                &&& step == Step::Done(SchedFlow::Block)
                &&& after == (self.finished(), MailboxView { running: false, ..mailbox })
            },
        }
    }

    /// Whether an abortion goes one step as it should: it runs what is to run, interrupts what
    /// waits once there is nothing to run, and is over when there is nothing of either.
    pub open spec fn aborts<F: Fn(u64, &'static str) -> bool>(
        self,
        phase: AbortPhase,
        msg: &'static str,
        then: Aborted,
        mailbox: MailboxView,
        interrupt: F,
        after: (Self, MailboxView),
        step: Step,
    ) -> bool {
        let running = Progress::Abort { phase: AbortPhase::Running, msg, then };
        if phase == AbortPhase::Running && self.running.len() > 0 {
            &&& step == (Step::Run { co: self.running.first(), progress: running })
            &&& after == (TaskView { running: self.running.skip(1), ..self }, mailbox)
        } else {
            exists|
                suspended: Seq<(u64, u64)>,
                blocked: Seq<(u64, u64)>,
                left: Map<u64, u64>,
                task: TaskView,
            | #[trigger]
                self.aborts_by(
                    msg,
                    then,
                    mailbox,
                    interrupt,
                    after,
                    step,
                    suspended,
                    blocked,
                    left,
                    task,
                )
        }
    }

    /// Whether an abortion interrupts, which leaves `task`, and goes on as it should.
    pub open spec fn aborts_by<F: Fn(u64, &'static str) -> bool>(
        self,
        msg: &'static str,
        then: Aborted,
        mailbox: MailboxView,
        interrupt: F,
        after: (Self, MailboxView),
        step: Step,
        suspended: Seq<(u64, u64)>,
        blocked: Seq<(u64, u64)>,
        left: Map<u64, u64>,
        task: Self,
    ) -> bool {
        &&& self.interrupts(
            mailbox,
            msg,
            interrupt,
            suspended,
            blocked,
            left,
            (task, after.1),
        )
        &&& task.goes_on(msg, then, after.0, step)
    }

    /// Whether an abortion goes on as it should after interrupting.
    pub open spec fn goes_on(
        self,
        msg: &'static str,
        then: Aborted,
        after: Self,
        step: Step,
    ) -> bool {
        if self.running.len() > 0 {
            &&& step == (Step::Run {
                co: self.running.first(),
                progress: Progress::Abort { phase: AbortPhase::Running, msg, then },
            })
            &&& after == (TaskView { running: self.running.skip(1), ..self })
        } else if self.blocking != waiting::nobody() {
            &&& step == (Step::Snooze {
                progress: Progress::Abort { phase: AbortPhase::Interrupting, msg, then },
            })
            &&& after == self
        } else {
            &&& after == (TaskView { spawned: Seq::empty(), ..self })
            &&& step is Drop
            &&& match then {
                Aborted::Run { phase, completed } => {
                    &&& step->coroutines@ == self.spawned.push(completed)
                    &&& step->Drop_progress == Progress::Run(phase)
                },
                Aborted::Cease => {
                    &&& step->coroutines@ == self.spawned
                    &&& step->Drop_progress == Progress::Ceased
                },
            }
        }
    }
}

/// How often `co` occurs in `cos`.
pub open spec fn occurrences(cos: Seq<u64>, co: u64) -> nat {
    cos.to_multiset().count(co)
}

pub open spec fn one_if(waits: bool) -> nat {
    if waits {
        1
    } else {
        0
    }
}

impl TaskView {
    /// In how many places the task keeps `co`.
    pub open spec fn places(self, co: u64) -> nat {
        occurrences(self.spawned, co) + occurrences(self.running, co) + occurrences(
            self.yieldings,
            co,
        ) + one_if(self.suspending.dom().contains(co)) + one_if(self.blocking.dom().contains(co))
    }
}

proof fn lemma_occurrences(left: Seq<u64>, right: Seq<u64>, other: u64, co: u64)
    ensures
        occurrences(Seq::empty(), co) == 0,
        occurrences(left + right, co) == occurrences(left, co) + occurrences(right, co),
        occurrences(left.push(other), co) == occurrences(left, co) + one_if(co == other),
{
    broadcast use vstd::seq_lib::group_to_multiset_ensures;

    vstd::seq_lib::lemma_multiset_commutative(left, right);
    assert(left.to_multiset().add(right.to_multiset()).count(co) == left.to_multiset().count(co)
        + right.to_multiset().count(co));
    assert(Seq::<u64>::empty().to_multiset().len() == 0);
    assert(left.push(other).to_multiset() =~= left.to_multiset().insert(other));
}

proof fn lemma_occurs_once(pairs: Seq<(u64, u64)>, map: Map<u64, u64>, co: u64)
    requires
        waiting::enumerates(pairs, map),
    ensures
        occurrences(coroutines(pairs), co) == one_if(map.dom().contains(co)),
    decreases pairs.len(),
{
    if pairs.len() == 0 {
        lemma_occurrences(Seq::empty(), Seq::empty(), 0, co);
        assert(coroutines(pairs) =~= Seq::<u64>::empty());
        if map.dom().contains(co) {
            assert(pairs.contains((co, map[co])));
        }
    } else {
        let last = pairs.last();
        let fewer = pairs.drop_last();
        let rest = map.remove(last.0);
        assert(pairs.contains((last.0, last.1)));
        assert(map.dom().contains(last.0));
        assert forall|c: u64, y: u64| #[trigger] fewer.contains((c, y)) <==> rest.dom().contains(c)
            && rest[c] == y by {
            if fewer.contains((c, y)) {
                let i = choose|i: int| 0 <= i < fewer.len() && fewer[i] == (c, y);
                assert(pairs[i] == (c, y));
                assert(pairs.contains((c, y)));
                if c == last.0 {
                    assert(pairs[pairs.len() - 1] == pairs[i]);
                }
            }
            if rest.dom().contains(c) && rest[c] == y {
                assert(pairs.contains((c, y)));
                let i = choose|i: int| 0 <= i < pairs.len() && pairs[i] == (c, y);
                assert(i < fewer.len());
                assert(fewer[i] == (c, y));
            }
        }
        lemma_occurs_once(fewer, rest, co);
        lemma_occurrences(coroutines(fewer), Seq::empty(), last.0, co);
        assert(coroutines(pairs) =~= coroutines(fewer).push(last.0));
    }
}

proof fn lemma_unblocked(task: TaskView, cos: Seq<u64>, co: u64)
    ensures
        task.unblocked(cos).places(co) == task.places(co),
        task.unblocked(cos).spawned == task.spawned,
        task.unblocked(cos).yieldings == task.yieldings,
        task.unblocked(cos).suspending == task.suspending,
        task.unblocked(cos).aborting == task.aborting,
    decreases cos.len(),
{
    if cos.len() > 0 {
        let before = task.unblocked(cos.drop_last());
        lemma_unblocked(task, cos.drop_last(), co);
        lemma_occurrences(before.running, Seq::empty(), cos.last(), co);
    }
}

/// The start of a run, and wakeups from outside, keep every coroutine in as many places as it was.
pub proof fn law_start_loses_nobody(task: TaskView, mailbox: MailboxView, co: u64)
    ensures
        task.started().places(co) == task.places(co),
        task.emptied(mailbox).0.places(co) == task.places(co),
{
    lemma_occurrences(task.running, task.spawned, 0, co);
    lemma_occurrences(task.running + task.spawned, task.yieldings, 0, co);
    lemma_unblocked(task, mailbox.unblocking, co);
}

/// An interruption keeps every coroutine in as many places as it was.
pub proof fn law_interrupt_loses_nobody<F: Fn(u64, &'static str) -> bool>(
    task: TaskView,
    mailbox: MailboxView,
    msg: &'static str,
    interrupt: F,
    suspended: Seq<(u64, u64)>,
    blocked: Seq<(u64, u64)>,
    left: Map<u64, u64>,
    after: (TaskView, MailboxView),
    co: u64,
)
    requires
        task.interrupts(mailbox, msg, interrupt, suspended, blocked, left, after),
    ensures
        after.0.places(co) == task.places(co),
        after.0.spawned == task.spawned,
        after.0.yieldings.len() == 0,
        after.0.suspending == waiting::nobody(),
{
    let moved = task.after_interrupt(suspended, blocked, left);
    lemma_occurs_once(suspended, task.suspending, co);
    lemma_occurs_once(blocked, task.blocking.remove_keys(left.dom()), co);
    let s = coroutines(suspended);
    let b = coroutines(blocked);
    lemma_occurrences(task.running, task.yieldings, 0, co);
    lemma_occurrences(task.running + task.yieldings, s, 0, co);
    lemma_occurrences(task.running + task.yieldings + s, b, 0, co);
    if left.dom().contains(co) {
        assert(task.blocking.dom().contains(co));
    }
    assert(moved.places(co) == task.places(co));
    lemma_unblocked(moved, mailbox.unblocking, co);
}

/// A run takes the coroutine that comes next out of one place, and leaves all others where they
/// are.
pub proof fn law_next_loses_nobody(task: TaskView, phase: Phase, other: u64)
    ensures
        task.next(phase) matches Next::Run { co, phase: _, task: after } ==> after.places(other)
            + one_if(other == co) == task.places(other),
{
    if let Next::Run { co, phase: _, task: after } = task.next(phase) {
        if after.spawned != task.spawned {
            assert(task.spawned =~= after.spawned.push(co));
            lemma_occurrences(after.spawned, Seq::empty(), co, other);
        } else {
            assert(task.running =~= seq![co] + after.running);
            lemma_occurrences(seq![co], after.running, 0, other);
            lemma_occurrences(Seq::empty(), Seq::empty(), co, other);
            assert(Seq::<u64>::empty().push(co) =~= seq![co]);
        }
    }
}

/// An abortion is over only when no coroutine is left in the task.
pub proof fn law_abort_leaves_nobody<F: Fn(u64, &'static str) -> bool>(
    task: TaskView,
    phase: AbortPhase,
    msg: &'static str,
    then: Aborted,
    mailbox: MailboxView,
    interrupt: F,
    after: (TaskView, MailboxView),
    step: Step,
)
    requires
        task.aborts(phase, msg, then, mailbox, interrupt, after, step),
        step is Drop,
    ensures
        after.0.over(),
{
    let (suspended, blocked, left, interrupted) = choose|
        suspended: Seq<(u64, u64)>,
        blocked: Seq<(u64, u64)>,
        left: Map<u64, u64>,
        interrupted: TaskView,
    | #[trigger]
        task.aborts_by(
            msg,
            then,
            mailbox,
            interrupt,
            after,
            step,
            suspended,
            blocked,
            left,
            interrupted,
        );
    law_interrupt_loses_nobody(
        task,
        mailbox,
        msg,
        interrupt,
        suspended,
        blocked,
        left,
        (interrupted, after.1),
        0,
    );
}

/// A task that sleeps has nothing to unblock, the first wakeup schedules it, and no other does
/// until it sleeps again.
pub proof fn law_first_wakeup_schedules(mailbox: MailboxView, co: u64, other: u64)
    requires
        mailbox.inv(),
    ensures
        !mailbox.running ==> mailbox.unblocking.len() == 0,
        mailbox.after_wake(co).running,
        mailbox.after_wake(co).unblocking.contains(co),
        mailbox.after_wake(co).after_wake(other).unblocking.contains(co),
{
    let once = mailbox.after_wake(co).unblocking;
    assert(once[mailbox.unblocking.len() as int] == co);
    assert(once.push(other)[mailbox.unblocking.len() as int] == co);
}

proof fn lemma_unblocked_all(task: TaskView, cos: Seq<u64>, co: u64)
    ensures
        task.unblocked(cos).blocking.dom().contains(co) <==> task.blocking.dom().contains(co)
            && !cos.contains(co),
        task.unblocked(cos).blocking.dom().contains(co) ==> task.unblocked(cos).blocking[co]
            == task.blocking[co],
        task.running.is_prefix_of(task.unblocked(cos).running),
        task.blocking.dom().contains(co) && cos.contains(co) ==> task.unblocked(
            cos,
        ).running.contains(co),
        task.unblocked(cos).main == task.main,
        task.unblocked(cos).yielding == task.yielding,
    decreases cos.len(),
{
    if cos.len() > 0 {
        let earlier = cos.drop_last();
        let before = task.unblocked(earlier);
        lemma_unblocked_all(task, earlier, co);
        lemma_unblocked_all(task, earlier, cos.last());
        assert(cos =~= earlier.push(cos.last()));
        assert(cos.contains(co) <==> earlier.contains(co) || co == cos.last()) by {
            if earlier.contains(co) {
                let i = choose|i: int| 0 <= i < earlier.len() && earlier[i] == co;
                assert(cos[i] == co);
            }
            if co == cos.last() {
                assert(cos[cos.len() - 1] == co);
            }
            if cos.contains(co) && co != cos.last() {
                let i = choose|i: int| 0 <= i < cos.len() && cos[i] == co;
                assert(earlier[i] == co);
            }
        }
        let after = task.unblocked(cos);
        if before.blocking.dom().contains(cos.last()) {
            assert(after.running == before.running.push(cos.last()));
            assert(after.running[before.running.len() as int] == cos.last());
            if before.running.contains(co) {
                let i = choose|i: int| 0 <= i < before.running.len() && before.running[i] == co;
                assert(after.running[i] == co);
            }
            assert(task.running =~= after.running.take(task.running.len() as int));
        }
    } else {
        assert(task.running =~= task.running.take(task.running.len() as int));
    }
}

/// A task that has nothing to run sleeps, or is scheduled again, as long as one of its coroutines
/// waits for an event from outside, though others wait for coroutines of the task: nobody is
/// interrupted, and the task is not aborted. It sleeps if and only if nobody has yielded and no such
/// event has come. Coroutines whose events have come are to run.
pub proof fn law_waits_for_events_outside<F: Fn(u64, &'static str) -> bool>(
    task: &mut Task,
    phase: Phase,
    mailbox: &mut Mailbox,
    interrupt: &F,
    step: Step,
    waiting: u64,
    co: u64,
)
    requires
        call_ensures(Task::step::<F>, (task, Progress::Run(phase), mailbox, interrupt), step),
        old(task)@.spawned.len() == 0,
        old(task)@.running.len() == 0,
        old(task)@.blocking.dom().contains(waiting),
    ensures
        step == Step::Done(SchedFlow::Yield) || step == Step::Done(SchedFlow::Block),
        step == Step::Done(SchedFlow::Block) <==> old(task)@.yieldings.len() == 0 && old(mailbox)@.unblocking.len() == 0,
        final(task)@.aborting == old(task)@.aborting,
        final(task)@.suspending == old(task)@.suspending,
        final(task)@.yieldings == old(task)@.yieldings,
        final(task)@.spawned.len() == 0,
        !final(task)@.yielding,
        step == Step::Done(SchedFlow::Block) ==> {
            &&& final(task)@.blocking == old(task)@.blocking
            &&& final(task)@.running.len() == 0
            &&& !final(mailbox)@.running
            &&& final(mailbox)@.unblocking.len() == 0
        },
        step == Step::Done(SchedFlow::Yield) ==> final(mailbox)@.running == old(mailbox)@.running,
        final(task)@.places(co) == old(task)@.places(co),
        final(task)@.blocking.dom().contains(co) ==> old(task)@.blocking.dom().contains(co),
        old(task)@.yieldings.len() == 0 && old(mailbox)@.unblocking.contains(co) && old(task)@.blocking.dom().contains(co) ==> {
            &&& final(task)@.running.contains(co)
            &&& !final(task)@.blocking.dom().contains(co)
        },
        old(task)@.blocking.dom().contains(co) && !old(mailbox)@.unblocking.contains(co) ==> {
            &&& final(task)@.blocking.dom().contains(co)
            &&& final(task)@.blocking[co] == old(task)@.blocking[co]
        },
{
    assert(old(task)@.blocking != Map::<u64, u64>::empty()) by {
        assert(!Map::<u64, u64>::empty().dom().contains(waiting));
    }
    lemma_unblocked(old(task)@.finished(), old(mailbox)@.unblocking, co);
    lemma_unblocked_all(old(task)@.finished(), old(mailbox)@.unblocking, co);
}

/// A run starts an abortion only if nothing is to run, nobody has yielded, nobody waits for an event
/// from outside, and somebody waits inside: only then do coroutines wait for each other for ever. It
/// is over only if there is no coroutine at all.
pub proof fn law_run_ends_only_if_done<F: Fn(u64, &'static str) -> bool>(
    task: &mut Task,
    phase: Phase,
    mailbox: &mut Mailbox,
    interrupt: &F,
    step: Step,
    co: u64,
)
    requires
        call_ensures(Task::step::<F>, (task, Progress::Run(phase), mailbox, interrupt), step),
        old(task)@.yielding ==> old(task)@.yieldings.len() > 0,
    ensures
        final(task)@.aborting && !old(task)@.aborting ==> {
            &&& old(task)@.spawned.len() == 0
            &&& old(task)@.running.len() == 0
            &&& old(task)@.yieldings.len() == 0
            &&& !old(task)@.blocking.dom().contains(co)
            &&& old(task)@.suspending != Map::<u64, u64>::empty()
        },
        step == Step::Done(SchedFlow::Cease) ==> {
            &&& old(task)@.spawned.len() == 0
            &&& old(task)@.running.len() == 0
            &&& old(task)@.yieldings.len() == 0
            &&& !old(task)@.blocking.dom().contains(co)
            &&& !old(task)@.suspending.dom().contains(co)
        },
        step is Snooze || step is Drop ==> final(task)@.aborting,
        (step matches Step::Run { co: _, progress: Progress::Abort { phase: _, msg: _, then: _ } })
            ==> final(task)@.aborting,
        old(task)@.aborting ==> final(task)@.aborting,
        final(task)@.id == old(task)@.id,
        final(task)@.main == old(task)@.main,
{
    let before = TaskView { aborting: true, ..old(task)@.finished() };
    if old(task)@.next(phase) is Finish && old(task)@.yieldings.len() == 0 {
        if old(task)@.blocking == waiting::nobody() && old(task)@.suspending != waiting::nobody() {
            lemma_aborts(
                before,
                AbortPhase::Interrupting,
                DEADLOCK,
                Aborted::Cease,
                old(mailbox)@,
                *interrupt,
                (final(task)@, final(mailbox)@),
                step,
                co,
            );
        } else {
            lemma_unblocked(old(task)@.finished(), old(mailbox)@.unblocking, co);
            lemma_unblocked_all(old(task)@.finished(), old(mailbox)@.unblocking, co);
            lemma_unblocked_id(old(task)@.finished(), old(mailbox)@.unblocking);
        }
    }
}

/// While the task does not yield, and something is to run, the run goes on: with new coroutines,
/// the last first, whenever a round begins, and then with the others, the first first, to the end of
/// the round. The coroutine that runs is taken out of the task once, and everything else stays.
pub proof fn law_runs_in_turn<F: Fn(u64, &'static str) -> bool>(
    task: &mut Task,
    phase: Phase,
    mailbox: &mut Mailbox,
    interrupt: &F,
    step: Step,
    other: u64,
)
    requires
        call_ensures(Task::step::<F>, (task, Progress::Run(phase), mailbox, interrupt), step),
        old(task)@.spawned.len() > 0 || old(task)@.running.len() > 0,
        old(task)@.yielding ==> {
            ||| phase == Phase::Running && old(task)@.running.len() > 0
            ||| phase == Phase::Spawned
        },
        !(old(task)@.yielding && phase == Phase::Spawned && old(task)@.spawned.len() == 0
            && old(task)@.running.len() == 0),
    ensures
        step is Run,
        step->Run_progress is Run,
        phase == Phase::Running && old(task)@.running.len() > 0 || old(task)@.spawned.len() == 0
            ==> {
            &&& step->co == old(task)@.running[0]
            &&& step->Run_progress == Progress::Run(Phase::Running)
            &&& old(task)@.running == seq![step->co] + final(task)@.running
            &&& final(task)@.spawned == old(task)@.spawned
        },
        !(phase == Phase::Running && old(task)@.running.len() > 0) && old(task)@.spawned.len() > 0
            ==> {
            &&& step->co == old(task)@.spawned.last()
            &&& step->Run_progress == Progress::Run(Phase::Spawned)
            &&& old(task)@.spawned == final(task)@.spawned.push(step->co)
            &&& final(task)@.running == old(task)@.running
        },
        final(task)@.places(other) + one_if(other == step->co) == old(task)@.places(other),
        final(task)@.yieldings == old(task)@.yieldings,
        final(task)@.suspending == old(task)@.suspending,
        final(task)@.blocking == old(task)@.blocking,
        final(task)@.aborting == old(task)@.aborting,
        final(task)@.yielding == old(task)@.yielding,
        final(mailbox)@ == old(mailbox)@,
{
    law_next_loses_nobody(old(task)@, phase, other);
    if old(task)@.running.len() > 0 {
        assert(old(task)@.running =~= seq![old(task)@.running[0]] + old(task)@.running.skip(1));
    }
    if old(task)@.spawned.len() > 0 {
        assert(old(task)@.spawned =~= old(task)@.spawned.drop_last().push(
            old(task)@.spawned.last(),
        ));
    }
}

/// A task that yields leaves new coroutines, and those to run, for the next run once the round is
/// over.
pub proof fn law_yield_ends_the_run<F: Fn(u64, &'static str) -> bool>(
    task: &mut Task,
    phase: Phase,
    mailbox: &mut Mailbox,
    interrupt: &F,
    step: Step,
)
    requires
        call_ensures(Task::step::<F>, (task, Progress::Run(phase), mailbox, interrupt), step),
        old(task)@.yielding,
        old(task)@.yieldings.len() > 0,
        phase == Phase::Checking || phase == Phase::Running && old(task)@.running.len() == 0,
    ensures
        step == Step::Done(SchedFlow::Yield),
        final(task)@.spawned == old(task)@.spawned,
        final(task)@.running == old(task)@.running,
        final(task)@.yieldings == old(task)@.yieldings,
        final(task)@.suspending == old(task)@.suspending,
        final(task)@.blocking == old(task)@.blocking,
        final(task)@.aborting == old(task)@.aborting,
        !final(task)@.yielding,
        final(mailbox)@ == old(mailbox)@,
{
}

proof fn lemma_unblocked_id(task: TaskView, cos: Seq<u64>)
    ensures
        task.unblocked(cos).id == task.id,
        task.unblocked(cos).main == task.main,
    decreases cos.len(),
{
    if cos.len() > 0 {
        lemma_unblocked_id(task, cos.drop_last());
    }
}

/// What an abortion comes to in one step, coroutine by coroutine.
proof fn lemma_aborts<F: Fn(u64, &'static str) -> bool>(
    task: TaskView,
    phase: AbortPhase,
    msg: &'static str,
    then: Aborted,
    mailbox: MailboxView,
    interrupt: F,
    after: (TaskView, MailboxView),
    step: Step,
    co: u64,
)
    requires
        task.aborts(phase, msg, then, mailbox, interrupt, after, step),
        phase == AbortPhase::Interrupting || task.running.len() == 0,
    ensures
        after.0.id == task.id,
        after.0.main == task.main,
        after.0.aborting == task.aborting,
        after.0.yielding == task.yielding,
        after.0.suspending == Map::<u64, u64>::empty(),
        after.0.yieldings.len() == 0,
        task.suspending.dom().contains(co) ==> exists|interrupted: bool| #[trigger]
            call_ensures(interrupt, (task.suspending[co], msg), interrupted),
        after.0.blocking.dom().contains(co) ==> {
            &&& task.blocking.dom().contains(co)
            &&& after.0.blocking[co] == task.blocking[co]
            &&& call_ensures(interrupt, (task.blocking[co], msg), false)
            &&& !mailbox.unblocking.contains(co)
        },
        task.blocking.dom().contains(co) ==> {
            ||| call_ensures(interrupt, (task.blocking[co], msg), true)
            ||| call_ensures(interrupt, (task.blocking[co], msg), false)
        },
        step is Run || step is Snooze || step is Drop,
        !(step is Drop) ==> after.0.spawned == task.spawned,
        step is Run ==> {
            &&& step->Run_progress == (Progress::Abort { phase: AbortPhase::Running, msg, then })
            &&& after.0.places(co) + one_if(co == step->co) == task.places(co)
        },
        step is Snooze ==> {
            &&& step->Snooze_progress == (Progress::Abort {
                phase: AbortPhase::Interrupting,
                msg,
                then,
            })
            &&& after.0.places(co) == task.places(co)
            &&& after.0.running.len() == 0
            &&& after.0.blocking != Map::<u64, u64>::empty()
        },
        step is Drop ==> {
            &&& after.0.running.len() == 0
            &&& after.0.spawned.len() == 0
            &&& after.0.blocking == Map::<u64, u64>::empty()
            &&& task.places(co) == occurrences(task.spawned, co)
            &&& then matches Aborted::Run { phase, completed } ==> {
                &&& step->coroutines@ == task.spawned.push(completed)
                &&& step->Drop_progress == Progress::Run(phase)
            }
            &&& then is Cease ==> {
                &&& step->coroutines@ == task.spawned
                &&& step->Drop_progress is Ceased
            }
        },
        task.running.len() + task.yieldings.len() > 0 ==> step is Run,
        task.suspending.dom().contains(co) ==> step is Run,
{
    let (suspended, blocked, left, interrupted) = choose|
        suspended: Seq<(u64, u64)>,
        blocked: Seq<(u64, u64)>,
        left: Map<u64, u64>,
        interrupted: TaskView,
    | #[trigger]
        task.aborts_by(
            msg,
            then,
            mailbox,
            interrupt,
            after,
            step,
            suspended,
            blocked,
            left,
            interrupted,
        );
    law_interrupt_loses_nobody(
        task,
        mailbox,
        msg,
        interrupt,
        suspended,
        blocked,
        left,
        (interrupted, after.1),
        co,
    );
    let moved = task.after_interrupt(suspended, blocked, left);
    lemma_unblocked(moved, mailbox.unblocking, co);
    lemma_unblocked_id(moved, mailbox.unblocking);
    lemma_unblocked_all(moved, mailbox.unblocking, co);
    lemma_occurrences(Seq::empty(), Seq::empty(), 0, co);
    if task.suspending.dom().contains(co) {
        assert(suspended.contains((co, task.suspending[co])));
        let i = choose|i: int| 0 <= i < suspended.len() && suspended[i] == (co, task.suspending[co]);
        assert(told(interrupt, suspended[i].1, msg));
        assert(coroutines(suspended).len() > 0);
        assert(moved.running.len() > 0);
    }
    assert(interrupted.running.len() >= moved.running.len());
    if step is Run {
        assert(interrupted.running =~= seq![step->co] + after.0.running);
        lemma_occurrences(seq![step->co], after.0.running, 0, co);
        lemma_occurrences(Seq::empty(), Seq::empty(), step->co, co);
        assert(Seq::<u64>::empty().push(step->co) =~= seq![step->co]);
    }
    if interrupted.running.len() == 0 {
        assert(interrupted.running =~= Seq::<u64>::empty());
        assert(interrupted.yieldings =~= Seq::<u64>::empty());
    }
    assert(!Map::<u64, u64>::empty().dom().contains(co));
}

/// An abortion that has nothing to run interrupts: everyone who waits inside the task is told and is
/// to run, and whoever waits for an event from outside is told, and is to run unless somebody else
/// has woken it. Nobody is lost: who runs next is taken out once, and only new coroutines, which
/// have never run, are dropped, with the completed one that the abortion is for, when nobody else is
/// left.
pub proof fn law_abortion_tells_everyone<F: Fn(u64, &'static str) -> bool>(
    task: &mut Task,
    phase: AbortPhase,
    msg: &'static str,
    then: Aborted,
    mailbox: &mut Mailbox,
    interrupt: &F,
    step: Step,
    co: u64,
)
    requires
        call_ensures(
            Task::step::<F>,
            (task, Progress::Abort { phase, msg, then }, mailbox, interrupt),
            step,
        ),
        phase == AbortPhase::Interrupting || old(task)@.running.len() == 0,
    ensures
        old(task)@.suspending.dom().contains(co) ==> exists|interrupted: bool| #[trigger]
            call_ensures(*interrupt, (old(task)@.suspending[co], msg), interrupted),
        old(task)@.blocking.dom().contains(co) ==> exists|interrupted: bool| #[trigger]
            call_ensures(*interrupt, (old(task)@.blocking[co], msg), interrupted),
        !final(task)@.suspending.dom().contains(co),
        final(task)@.yieldings.len() == 0,
        final(task)@.blocking.dom().contains(co) ==> {
            &&& old(task)@.blocking.dom().contains(co)
            &&& final(task)@.blocking[co] == old(task)@.blocking[co]
            &&& call_ensures(*interrupt, (old(task)@.blocking[co], msg), false)
            &&& !old(mailbox)@.unblocking.contains(co)
        },
        step is Run || step is Snooze || step is Drop,
        old(task)@.running.len() + old(task)@.yieldings.len() > 0 || old(task)@.suspending.dom().contains(co) ==> step is Run,
        step is Run ==> {
            &&& step->Run_progress == (Progress::Abort { phase: AbortPhase::Running, msg, then })
            &&& final(task)@.places(co) + one_if(co == step->co) == old(task)@.places(co)
        },
        step is Snooze ==> {
            &&& step->Snooze_progress == (Progress::Abort {
                phase: AbortPhase::Interrupting,
                msg,
                then,
            })
            &&& final(task)@.places(co) == old(task)@.places(co)
            &&& final(task)@.blocking != Map::<u64, u64>::empty()
        },
        step is Drop ==> {
            &&& final(task)@.places(co) == 0
            &&& old(task)@.places(co) == occurrences(old(task)@.spawned, co)
            &&& then matches Aborted::Run { phase, completed } ==> {
                &&& step->coroutines@ == old(task)@.spawned.push(completed)
                &&& step->Drop_progress == Progress::Run(phase)
            }
            &&& then is Cease ==> {
                &&& step->coroutines@ == old(task)@.spawned
                &&& step->Drop_progress is Ceased
            }
        },
        !(step is Drop) ==> final(task)@.spawned == old(task)@.spawned,
        final(task)@.aborting == old(task)@.aborting,
{
    lemma_aborts(
        old(task)@,
        phase,
        msg,
        then,
        old(mailbox)@,
        *interrupt,
        (final(task)@, final(mailbox)@),
        step,
        co,
    );
    if step is Drop {
        lemma_occurrences(Seq::empty(), Seq::empty(), 0, co);
        assert(final(task)@.running =~= Seq::<u64>::empty());
        assert(final(task)@.spawned =~= Seq::<u64>::empty());
        assert(final(task)@.yieldings =~= Seq::<u64>::empty());
        assert(!Map::<u64, u64>::empty().dom().contains(co));
    }
}

/// An abortion runs what is to run, the first first, before it interrupts again.
pub proof fn law_abortion_runs_first<F: Fn(u64, &'static str) -> bool>(
    task: &mut Task,
    msg: &'static str,
    then: Aborted,
    mailbox: &mut Mailbox,
    interrupt: &F,
    step: Step,
)
    requires
        call_ensures(
            Task::step::<F>,
            (task, Progress::Abort { phase: AbortPhase::Running, msg, then }, mailbox, interrupt),
            step,
        ),
        old(task)@.running.len() > 0,
    ensures
        step == (Step::Run {
            co: old(task)@.running[0],
            progress: Progress::Abort { phase: AbortPhase::Running, msg, then },
        }),
        old(task)@.running == seq![old(task)@.running[0]] + final(task)@.running,
        final(task)@.spawned == old(task)@.spawned,
        final(task)@.yieldings == old(task)@.yieldings,
        final(task)@.suspending == old(task)@.suspending,
        final(task)@.blocking == old(task)@.blocking,
        final(task)@.aborting == old(task)@.aborting,
        final(mailbox)@ == old(mailbox)@,
{
    assert(old(task)@.running =~= seq![old(task)@.running[0]] + old(task)@.running.skip(1));
}

/// Coroutines that only wait for each other are told so, one of them runs next, and then the others,
/// until the task is over.
pub proof fn law_deadlock_is_aborted<F: Fn(u64, &'static str) -> bool>(
    task: &mut Task,
    phase: Phase,
    mailbox: &mut Mailbox,
    interrupt: &F,
    step: Step,
    co: u64,
)
    requires
        call_ensures(Task::step::<F>, (task, Progress::Run(phase), mailbox, interrupt), step),
        old(task)@.spawned.len() == 0,
        old(task)@.running.len() == 0,
        old(task)@.yieldings.len() == 0,
        old(task)@.blocking == Map::<u64, u64>::empty(),
        old(task)@.suspending.dom().contains(co),
    ensures
        final(task)@.aborting,
        exists|interrupted: bool| #[trigger]
            call_ensures(*interrupt, (old(task)@.suspending[co], DEADLOCK), interrupted),
        step is Run,
        step->Run_progress == (Progress::Abort {
            phase: AbortPhase::Running,
            msg: DEADLOCK,
            then: Aborted::Cease,
        }),
        final(task)@.places(co) + one_if(co == step->co) == 1,
        !final(task)@.suspending.dom().contains(co),
{
    assert(!Map::<u64, u64>::empty().dom().contains(co));
    let before = TaskView { aborting: true, ..old(task)@.finished() };
    lemma_aborts(
        before,
        AbortPhase::Interrupting,
        DEADLOCK,
        Aborted::Cease,
        old(mailbox)@,
        *interrupt,
        (final(task)@, final(mailbox)@),
        step,
        co,
    );
    lemma_occurrences(Seq::empty(), Seq::empty(), 0, co);
    assert(before.spawned =~= Seq::<u64>::empty());
    assert(before.running =~= Seq::<u64>::empty());
    assert(before.yieldings =~= Seq::<u64>::empty());
}

/// A coroutine that has completed is dropped once, now or with the abortion that it starts. Only the
/// completion of the main coroutine starts one.
pub proof fn law_main_ends_the_task(
    task: &mut Task,
    co: u64,
    completed: bool,
    progress: Progress,
    ran: (Option<u64>, Progress),
)
    requires
        call_ensures(Task::ran, (task, co, completed, progress), ran),
    ensures
        final(task)@.aborting <==> old(task)@.aborting || completed && co == old(task)@.main,
        !completed ==> ran.0 is None && ran.1 == progress,
        completed && (co != old(task)@.main || old(task)@.aborting) ==> ran.0 == Some(co) && ran.1
            == progress,
        completed && co == old(task)@.main && !old(task)@.aborting ==> {
            &&& ran.0 is None
            &&& ran.1 == (Progress::Abort {
                phase: AbortPhase::Interrupting,
                msg: MAIN_TERMINATED,
                then: Aborted::Run { phase: progress->Run_0, completed: co },
            })
        },
        final(task)@ == (TaskView { aborting: final(task)@.aborting, ..old(task)@ }),
{
}

/// A stop aborts the task, and the task is over then.
pub proof fn law_stop_aborts(task: &mut Task, msg: &'static str, progress: Progress)
    requires
        call_ensures(Task::stop, (task, msg), progress),
    ensures
        final(task)@.aborting,
        progress == (Progress::Abort {
            phase: AbortPhase::Interrupting,
            msg,
            then: Aborted::Cease,
        }),
        final(task)@ == (TaskView { aborting: true, ..old(task)@ }),
{
}

/// A coroutine that suspends waits until it is resumed, and is to run after the others then. Resuming
/// who does not wait inside the task changes nothing.
pub proof fn law_suspended_until_resumed(
    suspended: &mut Task,
    resumed: &mut Task,
    co: u64,
    yielding: u64,
    other: u64,
)
    requires
        call_ensures(Task::suspend, (suspended, co, yielding), ()),
        call_ensures(Task::resume, (resumed, other), ()),
        *final(suspended) == *old(resumed),
        !old(suspended)@.suspending.dom().contains(co),
    ensures
        final(suspended)@.suspending.dom().contains(co),
        final(suspended)@.suspending[co] == yielding,
        !final(suspended)@.blocking.dom().contains(co) || old(suspended)@.blocking.dom().contains(
            co,
        ),
        final(suspended)@.running == old(suspended)@.running,
        other == co ==> {
            &&& final(resumed)@.suspending == old(suspended)@.suspending
            &&& final(resumed)@.running == old(suspended)@.running.push(co)
        },
        !old(resumed)@.suspending.dom().contains(other) ==> final(resumed)@ == old(resumed)@,
        final(resumed)@.places(other) == old(resumed)@.places(other),
        final(resumed)@.spawned == old(suspended)@.spawned,
        final(resumed)@.yieldings == old(suspended)@.yieldings,
        final(resumed)@.blocking == old(suspended)@.blocking,
        final(resumed)@.aborting == old(suspended)@.aborting,
        final(resumed)@.yielding == old(suspended)@.yielding,
{
    lemma_occurrences(old(resumed)@.running, Seq::empty(), other, other);
    assert(old(suspended)@.suspending.insert(co, yielding).remove(co)
        =~= old(suspended)@.suspending);
}

/// A coroutine that blocks waits until it is woken from outside, and the first run after that runs
/// it. If the task slept, the wakeup schedules it.
pub proof fn law_blocked_until_woken(
    blocked: &mut Task,
    scheduled: &mut Task,
    co: u64,
    yielding: u64,
    woken: &mut Mailbox,
    waking: bool,
    mailbox: &mut Mailbox,
    progress: Progress,
)
    requires
        call_ensures(Task::block, (blocked, co, yielding), ()),
        call_ensures(Mailbox::wake, (woken, co), waking),
        call_ensures(Task::sched, (scheduled, mailbox), progress),
        *final(blocked) == *old(scheduled),
        *final(woken) == *old(mailbox),
    ensures
        final(blocked)@.blocking.dom().contains(co),
        final(blocked)@.blocking[co] == yielding,
        final(blocked)@.suspending == old(blocked)@.suspending,
        final(blocked)@.running == old(blocked)@.running,
        waking <==> !old(woken)@.running,
        final(woken)@.running,
        final(scheduled)@.running.contains(co),
        !final(scheduled)@.blocking.dom().contains(co),
        final(mailbox)@.unblocking.len() == 0,
        final(mailbox)@.running,
        progress == Progress::Run(Phase::Checking),
{
    let task = old(scheduled)@.started();
    lemma_unblocked_all(task, old(mailbox)@.unblocking, co);
    assert(old(mailbox)@.unblocking[old(woken)@.unblocking.len() as int] == co);
    assert(!Map::<u64, u64>::empty().dom().contains(co));
}

/// A run begins with what was to run, then new coroutines, then those that yielded, then those that
/// have been woken from outside. Nobody is lost.
pub proof fn law_run_begins_with_all(
    task: &mut Task,
    mailbox: &mut Mailbox,
    progress: Progress,
    co: u64,
)
    requires
        call_ensures(Task::sched, (task, mailbox), progress),
    ensures
        (old(task)@.running + old(task)@.spawned + old(task)@.yieldings).is_prefix_of(
            final(task)@.running,
        ),
        final(task)@.spawned.len() == 0,
        final(task)@.yieldings.len() == 0,
        final(task)@.places(co) == old(task)@.places(co),
        final(task)@.suspending == old(task)@.suspending,
        final(task)@.aborting == old(task)@.aborting,
        final(task)@.yielding == old(task)@.yielding,
        final(task)@.blocking.dom().contains(co) <==> old(task)@.blocking.dom().contains(co)
            && !old(mailbox)@.unblocking.contains(co),
        final(task)@.id == old(task)@.id,
        final(task)@.main == old(task)@.main,
        final(mailbox)@.running == old(mailbox)@.running,
{
    let started = old(task)@.started();
    law_start_loses_nobody(old(task)@, old(mailbox)@, co);
    law_start_loses_nobody(started, old(mailbox)@, co);
    lemma_unblocked(started, old(mailbox)@.unblocking, co);
    lemma_unblocked_id(started, old(mailbox)@.unblocking);
    lemma_unblocked_all(started, old(mailbox)@.unblocking, co);
    if started.blocking == waiting::nobody() {
        assert(!Map::<u64, u64>::empty().dom().contains(co));
        assert(started.running =~= started.running.take(started.running.len() as int));
    }
}

/// Wakeups unblock exactly those that wait for them, and a task sleeps only when there is none.
pub proof fn law_unblocks_who_was_woken(
    task: &mut Task,
    mailbox: &mut Mailbox,
    block: bool,
    unblocked: bool,
    co: u64,
)
    requires
        call_ensures(Task::unblock, (task, mailbox, block), unblocked),
        old(mailbox)@.inv(),
    ensures
        final(task)@.places(co) == old(task)@.places(co),
        final(task)@.blocking.dom().contains(co) <==> old(task)@.blocking.dom().contains(co)
            && !old(mailbox)@.unblocking.contains(co),
        old(task)@.blocking.dom().contains(co) && old(mailbox)@.unblocking.contains(co)
            ==> unblocked && final(task)@.running.contains(co),
        old(task)@.running.is_prefix_of(final(task)@.running),
        final(task)@.suspending == old(task)@.suspending,
        final(task)@.spawned == old(task)@.spawned,
        final(task)@.yieldings == old(task)@.yieldings,
        !final(mailbox)@.running && old(mailbox)@.running ==> block && !unblocked && old(mailbox)@.unblocking.len() == 0,
        block && old(mailbox)@.unblocking.len() == 0 && old(task)@.blocking.dom().contains(co)
            ==> !final(mailbox)@.running && !unblocked,
{
    lemma_unblocked(old(task)@, old(mailbox)@.unblocking, co);
    lemma_unblocked_all(old(task)@, old(mailbox)@.unblocking, co);
    assert(!Map::<u64, u64>::empty().dom().contains(co));
    assert(old(task)@.running =~= old(task)@.running.take(old(task)@.running.len() as int));
    if old(mailbox)@.unblocking.len() == 0 {
        assert(!old(mailbox)@.unblocking.contains(co));
    }
}

/// Of all who wake or grab a sleeping task one schedules it, the first.
pub proof fn law_one_schedules(
    grabbing: &mut Mailbox,
    grabbed: bool,
    waking: &mut Mailbox,
    woken: bool,
    co: u64,
)
    requires
        call_ensures(Mailbox::grab, (grabbing,), grabbed),
        call_ensures(Mailbox::wake, (waking, co), woken),
    ensures
        grabbed <==> !old(grabbing)@.running,
        woken <==> !old(waking)@.running,
        final(grabbing)@.running,
        final(waking)@.running,
        final(grabbing)@.unblocking == old(grabbing)@.unblocking,
        final(waking)@.unblocking == old(waking)@.unblocking.push(co),
        *final(grabbing) == *old(waking) ==> !woken,
        *final(waking) == *old(grabbing) ==> !grabbed,
{
}

/// A coroutine that yields is to run in the next run, one that is spawned in this one, if the task
/// does not yield. Nobody else is touched.
pub proof fn law_yielding_and_spawning(
    yielding: &mut Task,
    task_yielding: &mut Task,
    spawning: &mut Task,
    co: u64,
)
    requires
        call_ensures(Task::yield_coroutine, (yielding, co), ()),
        call_ensures(Task::yield_task, (task_yielding, co), ()),
        call_ensures(Task::spawn, (spawning, co), ()),
    ensures
        final(yielding)@ == (TaskView {
            yieldings: old(yielding)@.yieldings.push(co),
            ..old(yielding)@
        }),
        final(task_yielding)@ == (TaskView {
            yielding: true,
            yieldings: old(task_yielding)@.yieldings.push(co),
            ..old(task_yielding)@
        }),
        final(spawning)@ == (TaskView {
            spawned: old(spawning)@.spawned.push(co),
            ..old(spawning)@
        }),
{
}

/// A new task has its main coroutine to run and nothing else, and is scheduled.
pub proof fn law_new_task_runs_main(
    id: u64,
    main: u64,
    task: Task,
    again: u64,
    mailbox: Mailbox,
    co: u64,
)
    requires
        call_ensures(Task::new, (id, main), task),
        call_ensures(Task::id, (&task,), again),
        call_ensures(Mailbox::new, (), mailbox),
    ensures
        again == id,
        task@.id == id,
        task@.main == main,
        task@.spawned == seq![main],
        task@.places(co) == one_if(co == main),
        !task@.aborting,
        !task@.yielding,
        mailbox@.running,
        mailbox@.unblocking.len() == 0,
{
    lemma_occurrences(Seq::empty(), Seq::empty(), main, co);
    assert(Seq::<u64>::empty().push(main) =~= seq![main]);
    assert(!Map::<u64, u64>::empty().dom().contains(co));
}
} // verus!
