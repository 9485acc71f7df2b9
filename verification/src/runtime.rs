//! Scheduling of tasks on parallel threads.
//!
//! Tasks go by identities here. The scheduler decides what its threads do next; running and
//! aborting tasks, and waiting, is left to them.

use std::collections::{HashMap, VecDeque};

use vstd::prelude::*;
use vstd::std_specs::hash::*;

use crate::parse;
use crate::task::SchedFlow;

verus! {

/// Message to coroutines of tasks that are left when the runtime stops.
pub const STOP_MSG: &'static str = "runtime stopped";

/// Message of the panic for a runtime without threads.
pub const NO_PARALLELISM: &'static str = "parallelism must not be zero";

/// Builder for runtime.
pub struct Builder {
    parallelism: Option<usize>,
}

/// Number of threads that `STUCK_PARALLELISM_DEFAULT` specifies: itself if it is a number other
/// than zero.
pub open spec fn spec_env_parallelism(env: Option<Seq<char>>) -> Option<usize> {
    match env {
        Some(text) => match parse::number(text) {
            Some(n) => if n == 0 {
                None
            } else {
                Some(n)
            },
            None => None,
        },
        None => None,
    }
}

impl View for Builder {
    type V = Option<usize>;

    closed spec fn view(&self) -> Option<usize> {
        self.parallelism
    }
}

impl Default for Builder {
    fn default() -> (builder: Self)
        ensures
            builder@ is None,
    {
        Builder { parallelism: None }
    }
}

impl Builder {
    /// Specifies the number of parallel threads for scheduling.
    pub fn parallelism(&mut self, n: usize) -> (builder: &mut Self)
        requires
            n > 0,
        ensures
            builder@ == Some(n),
            *final(self) == *final(builder),
    {
        self.parallelism = Some(n);
        self
    }

    /// Number of threads to build a runtime with: what was specified, or else what environment
    /// variable `STUCK_PARALLELISM_DEFAULT` specifies, or else what is available, or else four.
    pub fn build(&self, env: Option<&str>, available: Option<usize>) -> (parallelism: usize)
        requires
            available matches Some(n) ==> n > 0,
            self@ matches Some(n) ==> n > 0,
        ensures
            parallelism == match self@ {
                Some(n) => n,
                None => match spec_env_parallelism(
                    match env {
                        Some(text) => Some(text@),
                        None => None,
                    },
                ) {
                    Some(n) => n,
                    None => match available {
                        Some(n) => n,
                        None => 4,
                    },
                },
            },
            parallelism > 0,
    {
        if let Some(n) = self.parallelism {
            return n;
        }
        if let Some(text) = env {
            if let Some(n) = parse::parse_usize(text) {
                if n > 0 {
                    return n;
                }
            }
        }
        match available {
            Some(n) => n,
            None => 4,
        }
    }
}

/// Values of [SchedulerState].
#[verifier::ext_equal]
pub struct SchedulerView<T> {
    /// Tasks to run.
    pub runq: Seq<u64>,
    /// Tasks that have not ceased.
    pub registry: Map<u64, T>,
    /// -1: running
    ///  0: start stopping
    /// +n: n stopped threads
    pub stopped: int,
}

/// State of a scheduler, to be guarded by a lock. `T` holds a task.
pub struct SchedulerState<T> {
    runq: VecDeque<u64>,
    registry: HashMap<u64, T>,
    stopped: isize,
}

impl<T> View for SchedulerState<T> {
    type V = SchedulerView<T>;

    closed spec fn view(&self) -> SchedulerView<T> {
        SchedulerView { runq: self.runq@, registry: self.registry@, stopped: self.stopped as int }
    }
}

/// How far a scheduling thread has come.
#[derive(Debug, Clone, Copy, PartialEq, Eq, Structural)]
pub enum Serving {
    /// Runs tasks until the runtime starts stopping.
    Running,
    /// Runs tasks, as the last thread, until all attendant threads have stopped.
    Draining,
    /// Collects tasks that are left, as the last thread.
    Collecting,
    /// Aborts tasks that were collected.
    Aborting,
}

/// What a scheduling thread does next.
#[derive(Debug, Clone, Copy, PartialEq, Eq, Structural)]
pub enum Serve {
    /// Run the task, and tell [SchedulerState::ran] what becomes of it.
    Run(u64),
    /// Wait for a wakeup.
    Wait,
    /// Tell the timer to stop, as the last thread.
    StopTimer,
    /// Abort the task, and tell [SchedulerState::aborted].
    Abort(u64),
    /// Sleep to let wakers resume tasks that they have won.
    Sleep,
    Exit,
}

impl<T> SchedulerView<T> {
    /// What a thread does next about the tasks to run.
    pub open spec fn next(self) -> (Serve, Self) {
        if self.runq.len() > 0 {
            (Serve::Run(self.runq[0]), SchedulerView { runq: self.runq.skip(1), ..self })
        } else {
            (Serve::Wait, self)
        }
    }

    /// Whether tasks that could be grabbed are to run, in some order, after what was to run.
    pub open spec fn collected<G: Fn(u64) -> bool>(
        self,
        after: Self,
        grab: G,
        grabbed: Seq<u64>,
    ) -> bool {
        &&& after == (SchedulerView { runq: self.runq + grabbed, ..self })
        &&& grabbed.no_duplicates()
        &&& forall|id: u64| #[trigger] grabbed.contains(id) ==> self.registry.dom().contains(id)
        &&& forall|id: u64| #[trigger]
            self.registry.dom().contains(id) ==> call_ensures(grab, (id,), grabbed.contains(id))
    }
}

impl<T> SchedulerState<T> {
    /// Constructs the state of a scheduler without tasks.
    pub fn new() -> (state: Self)
        ensures
            state@ == (SchedulerView::<T> {
                runq: Seq::empty(),
                registry: Map::empty(),
                stopped: -1,
            }),
    {
        broadcast use vstd::std_specs::hash::group_hash_axioms;

        SchedulerState {
            runq: VecDeque::with_capacity(256),
            registry: HashMap::with_capacity(256),
            stopped: -1,
        }
    }

    /// Stops the runtime. This is to be called twice: once for stop signal and once after all
    /// attendant threads stopped.
    pub fn stop(&mut self)
        requires
            old(self)@.stopped < isize::MAX,
        ensures
            final(self)@ == (SchedulerView {
                stopped: old(self)@.stopped + 1,
                ..old(self)@
            }),
    {
        self.stopped = self.stopped + 1;
    }

    /// Adds a new task to run. A thread is to be woken for it.
    pub fn sched(&mut self, id: u64, task: T)
        ensures
            final(self)@ == (SchedulerView {
                runq: old(self)@.runq.push(id),
                registry: old(self)@.registry.insert(id, task),
                ..old(self)@
            }),
    {
        broadcast use vstd::std_specs::hash::group_hash_axioms;

        self.registry.insert(id, task);
        self.runq.push_back(id);
    }

    /// Lets a task that was blocked run. A thread is to be woken for it.
    pub fn resume(&mut self, id: u64)
        ensures
            final(self)@ == (SchedulerView { runq: old(self)@.runq.push(id), ..old(self)@ }),
    {
        self.runq.push_back(id);
    }

    fn run(&mut self) -> (serve: Serve)
        ensures
            (serve, final(self)@) == old(self)@.next(),
    {
        match self.runq.pop_front() {
            Some(id) => {
                assert(self@.runq =~= old(self)@.runq.skip(1));
                Serve::Run(id)
            },
            None => {
                assert(self@ =~= old(self)@);
                Serve::Wait
            },
        }
    }

    /// Takes note of what becomes of a task that has run.
    pub fn ran(&mut self, id: u64, flow: SchedFlow)
        ensures
            final(self)@ == match flow {
                SchedFlow::Yield => (SchedulerView {
                    runq: old(self)@.runq.push(id),
                    ..old(self)@
                }),
                SchedFlow::Block => old(self)@,
                SchedFlow::Cease => (SchedulerView {
                    registry: old(self)@.registry.remove(id),
                    ..old(self)@
                }),
            },
    {
        broadcast use vstd::std_specs::hash::group_hash_axioms;

        match flow {
            SchedFlow::Yield => self.runq.push_back(id),
            SchedFlow::Block => {},
            SchedFlow::Cease => {
                self.registry.remove(&id);
            },
        }
    }

    /// Takes note that a task has been aborted.
    pub fn aborted(&mut self, id: u64)
        ensures
            final(self)@ == (SchedulerView {
                registry: old(self)@.registry.remove(id),
                ..old(self)@
            }),
    {
        broadcast use vstd::std_specs::hash::group_hash_axioms;

        self.registry.remove(&id);
    }

    fn collect<G: Fn(u64) -> bool>(&mut self, grab: &G)
        requires
            forall|id: u64| #[trigger] call_requires(*grab, (id,)),
        ensures
            exists|grabbed: Seq<u64>| #[trigger]
                old(self)@.collected(final(self)@, *grab, grabbed),
    {
        broadcast use vstd::std_specs::hash::group_hash_axioms;

        let ghost before = self@;
        let ghost mut grabbed: Seq<u64> = Seq::empty();
        for id in ids: self.registry.keys()
            invariant
                forall|id: u64| #[trigger] call_requires(*grab, (id,)),
                before.registry == self.registry@,
                ids.seq().unref().to_set() == before.registry.dom(),
                ids.seq().no_duplicates(),
                self@ == (SchedulerView { runq: before.runq + grabbed, ..before }),
                grabbed.no_duplicates(),
                forall|id: u64| #[trigger]
                    grabbed.contains(id) ==> before.registry.dom().contains(id),
                forall|id: u64| #[trigger]
                    grabbed.contains(id) ==> exists|k: int|
                        0 <= k < ids.index() && *(#[trigger] ids.seq()[k]) == id,
                forall|k: int|
                    0 <= k < ids.index() ==> call_ensures(
                        *grab,
                        (*(#[trigger] ids.seq()[k]),),
                        grabbed.contains(*ids.seq()[k]),
                    ),
        {
            let ghost earlier = grabbed;
            assert(*id == *ids.seq()[ids.index() as int]);
            assert(!earlier.contains(*id));
            assert(ids.seq().unref()[ids.index() as int] == *id);
            assert(before.registry.dom().contains(*id));
            if grab(*id) {
                self.runq.push_back(*id);
                proof {
                    grabbed = earlier.push(*id);
                    assert(grabbed[earlier.len() as int] == *id);
                    assert forall|other: u64| #[trigger] grabbed.contains(other) <==> earlier.contains(
                        other,
                    ) || other == *id by {
                        if earlier.contains(other) {
                            let k = choose|k: int| 0 <= k < earlier.len() && earlier[k] == other;
                            assert(grabbed[k] == other);
                        }
                    }
                    assert(self.runq@ =~= before.runq + grabbed);
                }
            }
        }
        assert forall|id: u64| #[trigger] before.registry.dom().contains(id) implies call_ensures(
            *grab,
            (id,),
            grabbed.contains(id),
        ) by {
        }
        assert(before.collected(self@, *grab, grabbed));
    }
}

impl<T> SchedulerView<T> {
    /// Whether a thread that has come so far does next what it should, and comes as far as it
    /// should.
    pub open spec fn serves<G: Fn(u64) -> bool>(
        self,
        serving: Serving,
        parallelism: usize,
        grab: G,
        after: Self,
        next: (Serve, Serving),
    ) -> bool {
        match serving {
            Serving::Running => if self.stopped < 0 {
                &&& (next.0, after) == self.next()
                &&& next.1 == Serving::Running
            } else {
                &&& after == (SchedulerView { stopped: self.stopped + 1, ..self })
                &&& next == if self.stopped + 1 == parallelism {
                    (Serve::StopTimer, Serving::Draining)
                } else {
                    (Serve::Exit, Serving::Running)
                }
            },
            Serving::Draining => if self.stopped == parallelism {
                &&& (next.0, after) == self.next()
                &&& next.1 == Serving::Draining
            } else {
                self.collects(grab, after, next)
            },
            Serving::Collecting => self.collects(grab, after, next),
            Serving::Aborting => self.aborts(after, next),
        }
    }

    /// Whether the last thread exits if no task is left, and otherwise aborts those that it can
    /// grab.
    pub open spec fn collects<G: Fn(u64) -> bool>(
        self,
        grab: G,
        after: Self,
        next: (Serve, Serving),
    ) -> bool {
        if self.registry == Map::<u64, T>::empty() {
            &&& after == self
            &&& next == (Serve::Exit, Serving::Collecting)
        } else {
            exists|grabbed: Seq<u64>, collected: Self| #[trigger]
                self.collected(collected, grab, grabbed) && collected.aborts(after, next)
        }
    }

    /// Whether the last thread aborts the first task to run, or sleeps if there is none.
    pub open spec fn aborts(self, after: Self, next: (Serve, Serving)) -> bool {
        if self.runq.len() > 0 {
            &&& after == (SchedulerView { runq: self.runq.skip(1), ..self })
            &&& next == (Serve::Abort(self.runq[0]), Serving::Aborting)
        } else {
            &&& after == self
            &&& next == (Serve::Sleep, Serving::Collecting)
        }
    }
}

impl<T> SchedulerState<T> {
    fn abort(&mut self) -> (next: (Serve, Serving))
        ensures
            old(self)@.aborts(final(self)@, next),
    {
        match self.runq.pop_front() {
            Some(id) => {
                assert(self@.runq =~= old(self)@.runq.skip(1));
                (Serve::Abort(id), Serving::Aborting)
            },
            None => {
                assert(self@ =~= old(self)@);
                (Serve::Sleep, Serving::Collecting)
            },
        }
    }

    /// Finds out what a scheduling thread does next.
    pub fn serve<G: Fn(u64) -> bool>(
        &mut self,
        serving: Serving,
        parallelism: usize,
        grab: &G,
    ) -> (next: (Serve, Serving))
        requires
            forall|id: u64| #[trigger] call_requires(*grab, (id,)),
            old(self)@.stopped < isize::MAX,
            parallelism <= isize::MAX,
        ensures
            old(self)@.serves(serving, parallelism, *grab, final(self)@, next),
    {
        broadcast use vstd::std_specs::hash::group_hash_axioms;

        if serving == Serving::Running {
            if self.stopped < 0 {
                return (self.run(), Serving::Running);
            }
            self.stopped = self.stopped + 1;
            if self.stopped as usize != parallelism {
                return (Serve::Exit, Serving::Running);
            }
            return (Serve::StopTimer, Serving::Draining);
        }
        if serving == Serving::Draining && self.stopped == parallelism as isize {
            return (self.run(), Serving::Draining);
        }
        if serving != Serving::Aborting {
            if self.registry.is_empty() {
                assert(self@.registry =~= Map::<u64, T>::empty());
                return (Serve::Exit, Serving::Collecting);
            }
            assert(self@.registry != Map::<u64, T>::empty());
            let ghost before = self@;
            self.collect(grab);
            let ghost collected = self@;
            let ghost grabbed = choose|grabbed: Seq<u64>| #[trigger]
                before.collected(collected, *grab, grabbed);
            let next = self.abort();
            assert(before.collected(collected, *grab, grabbed) && collected.aborts(self@, next));
            return next;
        }
        self.abort()
    }
}

/// Of the threads that stop, one after the other, only one is the last.
pub proof fn law_one_last_thread<T, G: Fn(u64) -> bool>(
    first: (SchedulerView<T>, SchedulerView<T>, (Serve, Serving)),
    second: (SchedulerView<T>, SchedulerView<T>, (Serve, Serving)),
    parallelism: usize,
    grab: G,
)
    requires
        0 <= first.0.stopped,
        first.0.serves(Serving::Running, parallelism, grab, first.1, first.2),
        first.1.stopped <= second.0.stopped,
        second.0.serves(Serving::Running, parallelism, grab, second.1, second.2),
    ensures
        !(first.2.0 == Serve::StopTimer && second.2.0 == Serve::StopTimer),
        first.2.0 == Serve::StopTimer ==> first.1.stopped == parallelism,
{
}

/// A thread leaves a running runtime only after it was told to stop, and the last one exits only
/// when no task is left.
pub proof fn law_exit_only_if_done<T, G: Fn(u64) -> bool>(
    before: SchedulerView<T>,
    after: SchedulerView<T>,
    serving: Serving,
    next: (Serve, Serving),
    parallelism: usize,
    grab: G,
)
    requires
        before.serves(serving, parallelism, grab, after, next),
        next.0 == Serve::Exit,
    ensures
        serving == Serving::Running ==> before.stopped >= 0,
        serving != Serving::Running ==> before.registry == Map::<u64, T>::empty(),
{
}

/// A runtime has as many threads as were specified, whatever the environment says.
pub proof fn law_specified_parallelism(
    builder: &mut Builder,
    built: &mut Builder,
    n: usize,
    env: Option<&str>,
    available: Option<usize>,
    parallelism: usize,
)
    requires
        call_ensures(Builder::parallelism, (builder, n), built),
        call_ensures(Builder::build, (old(built), env, available), parallelism),
    ensures
        parallelism == n,
        *final(builder) == *final(built),
{
}

/// With none specified, a runtime has as many threads as the environment specifies by a number other
/// than zero, or else as many as are available, or else four.
pub proof fn law_default_parallelism(
    builder: Builder,
    text: &str,
    parsed: Option<usize>,
    available: Option<usize>,
    specified: usize,
    unspecified: usize,
    unavailable: usize,
)
    requires
        call_ensures(Builder::default, (), builder),
        call_ensures(parse::parse_usize, (text,), parsed),
        call_ensures(Builder::build, (&builder, Some(text), available), specified),
        call_ensures(Builder::build, (&builder, None, available), unspecified),
        call_ensures(Builder::build, (&builder, None, None), unavailable),
    ensures
        parsed is Some && parsed->0 != 0 ==> specified == parsed->0,
        parsed is None || parsed->0 == 0 ==> specified == unspecified,
        available is Some ==> unspecified == available->0,
        available is None ==> unspecified == unavailable,
        unavailable == 4,
{
}

/// A scheduler begins without tasks, and runs.
pub proof fn law_new_scheduler<T>(state: SchedulerState<T>)
    requires
        call_ensures(SchedulerState::<T>::new, (), state),
    ensures
        state@.runq.len() == 0,
        forall|id: u64| !#[trigger] state@.registry.dom().contains(id),
        state@.stopped < 0,
        state@.stopped + 1 == 0,
{
}

/// A new task is to run behind the others, and is left until it ceases. One that was blocked is to
/// run behind the others. Neither changes anything else.
pub proof fn law_tasks_to_run<T>(
    scheduling: &mut SchedulerState<T>,
    resuming: &mut SchedulerState<T>,
    id: u64,
    task: T,
)
    requires
        call_ensures(SchedulerState::<T>::sched, (scheduling, id, task), ()),
        call_ensures(SchedulerState::<T>::resume, (resuming, id), ()),
    ensures
        final(scheduling)@.runq == old(scheduling)@.runq.push(id),
        final(scheduling)@.registry.dom() == old(scheduling)@.registry.dom().insert(id),
        final(scheduling)@.registry[id] == task,
        forall|other: u64|
            other != id && old(scheduling)@.registry.dom().contains(other) ==> (#[trigger] final(scheduling)@.registry[other]) == old(scheduling)@.registry[other],
        final(scheduling)@.stopped == old(scheduling)@.stopped,
        final(resuming)@.runq == old(resuming)@.runq.push(id),
        final(resuming)@.registry == old(resuming)@.registry,
        final(resuming)@.stopped == old(resuming)@.stopped,
{
}

/// A task that has run is to run again behind the others if it yielded, is left to be resumed if it
/// blocked, and is gone if it ceased or was aborted.
pub proof fn law_after_a_run<T>(
    running: &mut SchedulerState<T>,
    aborting: &mut SchedulerState<T>,
    id: u64,
    flow: SchedFlow,
)
    requires
        call_ensures(SchedulerState::<T>::ran, (running, id, flow), ()),
        call_ensures(SchedulerState::<T>::aborted, (aborting, id), ()),
    ensures
        flow is Yield ==> final(running)@.runq == old(running)@.runq.push(id),
        !(flow is Yield) ==> final(running)@.runq == old(running)@.runq,
        flow is Cease ==> final(running)@.registry == old(running)@.registry.remove(id),
        !(flow is Cease) ==> final(running)@.registry == old(running)@.registry,
        final(running)@.stopped == old(running)@.stopped,
        final(aborting)@.runq == old(aborting)@.runq,
        final(aborting)@.registry == old(aborting)@.registry.remove(id),
        final(aborting)@.stopped == old(aborting)@.stopped,
{
}

/// While the runtime runs, a thread runs tasks in the order in which they came to run, and waits when
/// there are none. The last one goes on so until all attendant threads have stopped.
pub proof fn law_runs_in_turn<T, G: Fn(u64) -> bool>(
    state: &mut SchedulerState<T>,
    serving: Serving,
    parallelism: usize,
    grab: &G,
    next: (Serve, Serving),
)
    requires
        call_ensures(SchedulerState::<T>::serve::<G>, (state, serving, parallelism, grab), next),
        (serving is Running && old(state)@.stopped < 0) || (serving is Draining && old(state)@.stopped == parallelism),
    ensures
        next.1 == serving,
        final(state)@.registry == old(state)@.registry,
        final(state)@.stopped == old(state)@.stopped,
        old(state)@.runq.len() == 0 ==> next.0 is Wait && final(state)@.runq == old(state)@.runq,
        old(state)@.runq.len() > 0 ==> {
            &&& next.0 == Serve::Run(old(state)@.runq.first())
            &&& final(state)@.runq == old(state)@.runq.drop_first()
        },
{
}

/// Once told to stop, a thread takes note and exits, with no task lost. The last of them tells the
/// timer to stop, and goes on.
pub proof fn law_stops_when_told<T, G: Fn(u64) -> bool>(
    stopping: &mut SchedulerState<T>,
    state: &mut SchedulerState<T>,
    parallelism: usize,
    grab: &G,
    next: (Serve, Serving),
)
    requires
        call_ensures(SchedulerState::<T>::stop, (stopping,), ()),
        *old(state) == *final(stopping),
        old(stopping)@.stopped >= -1,
        call_ensures(
            SchedulerState::<T>::serve::<G>,
            (state, Serving::Running, parallelism, grab),
            next,
        ),
    ensures
        final(stopping)@.runq == old(stopping)@.runq,
        final(stopping)@.registry == old(stopping)@.registry,
        final(stopping)@.stopped == old(stopping)@.stopped + 1,
        final(state)@.runq == old(stopping)@.runq,
        final(state)@.registry == old(stopping)@.registry,
        final(state)@.stopped == old(stopping)@.stopped + 2,
        next.0 is StopTimer <==> final(state)@.stopped == parallelism,
        next.0 is StopTimer ==> next.1 is Draining,
        next.0 is Exit <==> final(state)@.stopped != parallelism,
{
}

/// The last thread exits if no task is left. Otherwise it collects those that nobody else has, once
/// each and behind those to run, and aborts the first. It sleeps only if all that are left belong to
/// others.
pub proof fn law_collects_what_is_left<T, G: Fn(u64) -> bool>(
    state: &mut SchedulerState<T>,
    serving: Serving,
    parallelism: usize,
    grab: &G,
    next: (Serve, Serving),
)
    requires
        call_ensures(SchedulerState::<T>::serve::<G>, (state, serving, parallelism, grab), next),
        serving is Collecting || (serving is Draining && old(state)@.stopped != parallelism),
    ensures
        next.0 is Exit <==> forall|id: u64| !#[trigger] old(state)@.registry.dom().contains(id),
        next.0 is Exit ==> final(state)@.runq == old(state)@.runq,
        final(state)@.registry == old(state)@.registry,
        final(state)@.stopped == old(state)@.stopped,
        !(next.0 is Exit) ==> exists|grabbed: Seq<u64>|
            {
                &&& #[trigger] grabbed.no_duplicates()
                &&& forall|id: u64| #[trigger]
                    grabbed.contains(id) ==> old(state)@.registry.dom().contains(id)
                &&& forall|id: u64| #[trigger]
                    old(state)@.registry.dom().contains(id) ==> call_ensures(
                        *grab,
                        (id,),
                        grabbed.contains(id),
                    )
                &&& old(state)@.runq.len() + grabbed.len() == 0 ==> {
                    &&& next.0 is Sleep
                    &&& next.1 is Collecting
                    &&& final(state)@.runq.len() == 0
                }
                &&& old(state)@.runq.len() + grabbed.len() > 0 ==> {
                    &&& next.0 == Serve::Abort((old(state)@.runq + grabbed).first())
                    &&& next.1 is Aborting
                    &&& final(state)@.runq == (old(state)@.runq + grabbed).drop_first()
                }
            },
{
    if old(state)@.registry == Map::<u64, T>::empty() {
        assert forall|id: u64| !#[trigger] old(state)@.registry.dom().contains(id) by {
        }
    } else {
        if forall|id: u64| !#[trigger] old(state)@.registry.dom().contains(id) {
            assert(old(state)@.registry =~= Map::<u64, T>::empty());
        }
        let (grabbed, collected) = choose|grabbed: Seq<u64>, collected: SchedulerView<T>| #[trigger]
            old(state)@.collected(collected, *grab, grabbed) && collected.aborts(
                final(state)@,
                next,
            );
        assert(grabbed.no_duplicates());
        assert(collected.runq.len() == old(state)@.runq.len() + grabbed.len());
    }
}

/// What was collected is aborted in turn, and when nothing of it is left the last thread looks for
/// more.
pub proof fn law_aborts_in_turn<T, G: Fn(u64) -> bool>(
    state: &mut SchedulerState<T>,
    parallelism: usize,
    grab: &G,
    next: (Serve, Serving),
)
    requires
        call_ensures(
            SchedulerState::<T>::serve::<G>,
            (state, Serving::Aborting, parallelism, grab),
            next,
        ),
    ensures
        final(state)@.registry == old(state)@.registry,
        final(state)@.stopped == old(state)@.stopped,
        old(state)@.runq.len() == 0 ==> {
            &&& next.0 is Sleep
            &&& next.1 is Collecting
            &&& final(state)@.runq == old(state)@.runq
        },
        old(state)@.runq.len() > 0 ==> {
            &&& next.0 == Serve::Abort(old(state)@.runq.first())
            &&& next.1 is Aborting
            &&& final(state)@.runq == old(state)@.runq.drop_first()
        },
{
}

} // verus!
