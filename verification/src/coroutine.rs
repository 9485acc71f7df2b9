//! Cooperative coroutines in task.

pub mod context;
pub mod page_size;
pub mod stack;
pub mod suspension;

use vstd::prelude::*;

verus! {

/// The coroutine that runs on a thread, by its identity.
pub struct Running {
    co: Option<u64>,
}

impl View for Running {
    type V = Option<u64>;

    closed spec fn view(&self) -> Option<u64> {
        self.co
    }
}

impl Running {
    /// No coroutine runs on a new thread.
    pub fn new() -> (running: Self)
        ensures
            running@ is None,
    {
        Running { co: None }
    }

    /// The coroutine that runs.
    pub fn current(&self) -> (co: Option<u64>)
        ensures
            co == self@,
    {
        self.co
    }
}

/// A coroutine and its entry function.
pub struct Coroutine<F> {
    id: u64,
    f: Option<F>,
    completed: bool,
}

/// Values of [Coroutine].
pub struct CoroutineView<F> {
    pub id: u64,
    /// The entry function until it runs.
    pub f: Option<F>,
    pub completed: bool,
}

impl<F> View for Coroutine<F> {
    type V = CoroutineView<F>;

    closed spec fn view(&self) -> CoroutineView<F> {
        CoroutineView { id: self.id, f: self.f, completed: self.completed }
    }
}

impl<F> Coroutine<F> {
    /// Constructs a coroutine that has not run.
    pub fn new(id: u64, f: F) -> (co: Self)
        ensures
            co@ == (CoroutineView { id, f: Some(f), completed: false }),
    {
        Coroutine { id, f: Some(f), completed: false }
    }

    /// Takes the entry function to run it.
    pub fn run(&mut self) -> (f: F)
        requires
            old(self)@.f is Some,
        ensures
            Some(f) == old(self)@.f,
            final(self)@ == (CoroutineView { f: None, ..old(self)@ }),
    {
        self.f.take().unwrap()
    }

    /// Resumes coroutine. The caller switches to it.
    pub fn resume(&mut self, running: &mut Running)
        requires
            old(running)@ is None,
        ensures
            final(running)@ == Some(old(self)@.id),
            final(self)@ == old(self)@,
    {
        running.co = Some(self.id);
    }

    /// Suspends coroutine. The caller switches back to the thread.
    pub fn suspend(&mut self, running: &mut Running)
        requires
            old(running)@ == Some(old(self)@.id),
        ensures
            final(running)@ is None,
            final(self)@ == old(self)@,
    {
        running.co = None;
    }

    /// Completes coroutine. The caller switches back to the thread for good.
    pub fn complete(&mut self, running: &mut Running)
        requires
            old(running)@ == Some(old(self)@.id),
        ensures
            final(running)@ is None,
            final(self)@ == (CoroutineView { completed: true, ..old(self)@ }),
    {
        self.completed = true;
        running.co = None;
    }

    /// Returns whether this coroutine should be resumed again.
    pub fn resumable(&self) -> (resumable: bool)
        ensures
            resumable == !self@.completed,
    {
        !self.completed
    }
}

/// A coroutine runs from when it is resumed until it is suspended, any number of times, and is worth
/// resuming until it completes.
pub proof fn law_resumed_until_suspended<F>(
    resuming: &mut Coroutine<F>,
    suspending: &mut Coroutine<F>,
    starting: &mut Running,
    stopping: &mut Running,
    current: (Option<u64>, Option<u64>),
    resumable: (bool, bool),
)
    requires
        call_ensures(Coroutine::<F>::resumable, (old(resuming),), resumable.0),
        call_ensures(Coroutine::<F>::resume, (resuming, starting), ()),
        call_ensures(Running::current, (final(starting),), current.0),
        *old(suspending) == *final(resuming),
        *old(stopping) == *final(starting),
        call_ensures(Coroutine::<F>::suspend, (suspending, stopping), ()),
        call_ensures(Running::current, (final(stopping),), current.1),
        call_ensures(Coroutine::<F>::resumable, (final(suspending),), resumable.1),
    ensures
        current.0 == Some(old(resuming)@.id),
        current.1 is None,
        resumable.1 == resumable.0,
        final(suspending)@ == old(resuming)@,
{
}

/// A coroutine that completes runs no longer and is not worth resuming. It keeps its identity.
pub proof fn law_completed_for_good<F>(
    completing: &mut Coroutine<F>,
    stopping: &mut Running,
    current: Option<u64>,
    resumable: bool,
)
    requires
        call_ensures(Coroutine::<F>::complete, (completing, stopping), ()),
        call_ensures(Running::current, (final(stopping),), current),
        call_ensures(Coroutine::<F>::resumable, (final(completing),), resumable),
    ensures
        current is None,
        !resumable,
        final(completing)@.id == old(completing)@.id,
        final(completing)@.f == old(completing)@.f,
{
}

/// The entry function of a new coroutine runs once. The coroutine has not completed by then, and
/// nothing runs on a new thread.
pub proof fn law_runs_entry_once<F>(
    id: u64,
    f: F,
    co: &mut Coroutine<F>,
    entry: F,
    resumable: (bool, bool),
    running: Running,
    current: Option<u64>,
)
    requires
        call_ensures(Coroutine::<F>::new, (id, f), *old(co)),
        call_ensures(Coroutine::<F>::resumable, (old(co),), resumable.0),
        call_ensures(Coroutine::<F>::run, (co,), entry),
        call_ensures(Coroutine::<F>::resumable, (final(co),), resumable.1),
        call_ensures(Running::new, (), running),
        call_ensures(Running::current, (&running,), current),
    ensures
        entry == f,
        resumable == (true, true),
        old(co)@.id == id,
        final(co)@.id == id,
        final(co)@.f is None,
        current is None,
{
}

} // verus!
