//! Suspension and resumption of coroutines in one task.
//!
//! What a suspension shares with its resumptions is a value of its own here, the joint. Its
//! operations return whom to wake.

use vstd::prelude::*;

use crate::error::{join_result, JoinError, PanicError};
use crate::select::{Identifier, Permit, PermitView, Selector, TrySelectError};

verus! {

/// State of a suspension.
///
/// `C` is a coroutine and `W` wakes a selection.
pub enum SuspensionState<T, P, C, W> {
    Empty,
    Value(T),
    Panicked(PanicError<P>),
    Joining(C),
    Selector(Selector<W>),
    Joined,
}

impl<T, P, C, W> SuspensionState<T, P, C, W> {
    /// Whether no one can send a value any more.
    pub open spec fn settled(self) -> bool {
        self is Value || self is Panicked || self is Joined
    }

    /// Whether there is something to take.
    pub open spec fn ready(self) -> bool {
        self is Value || self is Panicked
    }

    /// Who waits for the outcome.
    pub open spec fn waiting(self) -> Wakeup<C, W> {
        match self {
            SuspensionState::Joining(co) => Wakeup::Coroutine(co),
            SuspensionState::Selector(selector) => Wakeup::Select {
                waker: selector.spec_waker(),
                index: selector.spec_index(),
            },
            _ => Wakeup::Nobody,
        }
    }

    /// What there is to take.
    pub open spec fn outcome(self) -> Result<T, PanicError<P>> {
        match self {
            SuspensionState::Value(value) => Ok(value),
            SuspensionState::Panicked(err) => Err(err),
            _ => arbitrary(),
        }
    }

    pub open spec fn after_wake(self, value: T) -> Self {
        if self.settled() {
            self
        } else {
            SuspensionState::Value(value)
        }
    }

    pub open spec fn after_cancel(self, err: PanicError<P>) -> Self {
        if self.settled() {
            self
        } else {
            SuspensionState::Panicked(err)
        }
    }
}

/// Whom to wake.
pub enum Wakeup<C, W> {
    Nobody,
    /// The coroutine goes on.
    Coroutine(C),
    /// The candidate at `index` of the selection is ready.
    Select { waker: W, index: usize },
}

impl<C, W> Wakeup<C, W> {
    pub open spec fn without_coroutine(self) -> Self {
        match self {
            Wakeup::Coroutine(_) => Wakeup::Nobody,
            other => other,
        }
    }

    /// Forgets a coroutine that goes on by other means.
    fn forget_coroutine(self) -> (wakeup: Self)
        ensures
            wakeup == self.without_coroutine(),
    {
        match self {
            Wakeup::Coroutine(_) => Wakeup::Nobody,
            other => other,
        }
    }
}

/// Message of the panic for a suspension that nobody can resume any more.
pub const NO_RESUMPTION: &'static str = "suspend: no resumption";

/// Message for resumptions of a suspension that has gone.
pub const SUSPENSION_DROPPED: &'static str = "suspension dropped";

pub struct SuspensionJoint<T, P, C, W> {
    state: SuspensionState<T, P, C, W>,
    wakers: usize,
}

/// Values of [SuspensionJoint].
pub struct JointView<T, P, C, W> {
    pub state: SuspensionState<T, P, C, W>,
    /// Resumptions that have not gone unused.
    pub wakers: nat,
}

impl<T, P, C, W> View for SuspensionJoint<T, P, C, W> {
    type V = JointView<T, P, C, W>;

    closed spec fn view(&self) -> JointView<T, P, C, W> {
        JointView { state: self.state, wakers: self.wakers as nat }
    }
}

/// Outcome of joining.
pub enum Joining<T, P> {
    /// Suspend the coroutine, and [take](SuspensionJoint::take) once it goes on.
    Suspend,
    Done(Result<T, PanicError<P>>),
}

impl<T, P, C, W> SuspensionJoint<T, P, C, W> {
    fn new() -> (joint: Self)
        ensures
            joint@ == (JointView::<T, P, C, W> { state: SuspensionState::Empty, wakers: 1 }),
    {
        SuspensionJoint { state: SuspensionState::Empty, wakers: 1 }
    }

    fn is_ready(&self) -> (ready: bool)
        ensures
            ready == self@.state.ready(),
    {
        match &self.state {
            SuspensionState::Value(_) => true,
            SuspensionState::Panicked(_) => true,
            _ => false,
        }
    }

    fn is_settled(&self) -> (settled: bool)
        ensures
            settled == self@.state.settled(),
    {
        match &self.state {
            SuspensionState::Value(_) => true,
            SuspensionState::Panicked(_) => true,
            SuspensionState::Joined => true,
            _ => false,
        }
    }

    fn add_waker(&mut self)
        requires
            old(self)@.wakers < usize::MAX,
        ensures
            final(self)@ == (JointView { wakers: old(self)@.wakers + 1, ..old(self)@ }),
    {
        self.wakers = self.wakers + 1;
    }

    fn remove_waker(&mut self) -> (wakeup: Wakeup<C, W>)
        requires
            old(self)@.wakers > 0,
        ensures
            final(self)@.wakers == old(self)@.wakers - 1,
            old(self)@.wakers == 1 ==> {
                &&& wakeup == old(self)@.state.waiting()
                &&& final(self)@.state == old(self)@.state.after_cancel(
                    PanicError::Static(NO_RESUMPTION),
                )
            },
            old(self)@.wakers > 1 ==> {
                &&& wakeup == Wakeup::<C, W>::Nobody
                &&& final(self)@.state == old(self)@.state
            },
    {
        self.wakers = self.wakers - 1;
        if self.wakers == 0 {
            self.fault(PanicError::Static(NO_RESUMPTION))
        } else {
            Wakeup::Nobody
        }
    }

    /// Replaces an unsettled state, and returns who waits for it.
    fn settle(&mut self, state: SuspensionState<T, P, C, W>) -> (wakeup: Wakeup<C, W>)
        ensures
            final(self)@ == (JointView { state, ..old(self)@ }),
            wakeup == old(self)@.state.waiting(),
    {
        let mut state = state;
        core::mem::swap(&mut state, &mut self.state);
        match state {
            SuspensionState::Joining(co) => Wakeup::Coroutine(co),
            SuspensionState::Selector(selector) => {
                let (waker, (index, _permit)) = selector.apply(Permit::default());
                Wakeup::Select { waker, index }
            },
            _ => Wakeup::Nobody,
        }
    }

    fn fault(&mut self, err: PanicError<P>) -> (wakeup: Wakeup<C, W>)
        ensures
            final(self)@ == (JointView {
                state: old(self)@.state.after_cancel(err),
                ..old(self)@
            }),
            wakeup == old(self)@.state.waiting(),
    {
        if self.is_settled() {
            return Wakeup::Nobody;
        }
        self.settle(SuspensionState::Panicked(err))
    }

    /// Fails the suspension. A coroutine that waits is not woken.
    fn cancel(&mut self, err: PanicError<P>) -> (wakeup: Wakeup<C, W>)
        ensures
            final(self)@ == (JointView {
                state: old(self)@.state.after_cancel(err),
                ..old(self)@
            }),
            wakeup == old(self)@.state.waiting().without_coroutine(),
    {
        self.fault(err).forget_coroutine()
    }

    /// Interrupts the suspended coroutine, which the caller makes go on.
    pub fn interrupt(&mut self, reason: &'static str) -> (interrupted: (bool, Wakeup<C, W>))
        ensures
            final(self)@ == (JointView {
                state: old(self)@.state.after_cancel(PanicError::Static(reason)),
                ..old(self)@
            }),
            interrupted == (true, old(self)@.state.waiting().without_coroutine()),
    {
        let wakeup = self.cancel(PanicError::Static(reason));
        (true, wakeup)
    }

    fn wake(&mut self, value: T) -> (result: (Result<(), T>, Wakeup<C, W>))
        ensures
            final(self)@ == (JointView {
                state: old(self)@.state.after_wake(value),
                ..old(self)@
            }),
            result.0 == if old(self)@.state.settled() {
                Err::<(), T>(value)
            } else {
                Ok(())
            },
            result.1 == old(self)@.state.waiting(),
    {
        if self.is_settled() {
            return (Err(value), Wakeup::Nobody);
        }
        let wakeup = self.settle(SuspensionState::Value(value));
        (Ok(()), wakeup)
    }

    fn watch_permit(&mut self, selector: Selector<W>) -> (watched: (bool, Wakeup<C, W>))
        requires
            old(self)@.state is Empty || old(self)@.state.settled(),
        ensures
            watched.0 == old(self)@.state.settled(),
            watched.0 ==> {
                &&& final(self)@ == old(self)@
                &&& watched.1 == (Wakeup::<C, W>::Select {
                    waker: selector.spec_waker(),
                    index: selector.spec_index(),
                })
            },
            !watched.0 ==> {
                &&& final(self)@ == (JointView {
                    state: SuspensionState::Selector(selector),
                    ..old(self)@
                })
                &&& watched.1 == Wakeup::<C, W>::Nobody
            },
    {
        if self.is_settled() {
            let (waker, (index, _permit)) = selector.apply(Permit::default());
            return (true, Wakeup::Select { waker, index });
        }
        self.state = SuspensionState::Selector(selector);
        (false, Wakeup::Nobody)
    }

    fn unwatch_permit(&mut self, identifier: &Identifier)
        requires
            old(self)@.state matches SuspensionState::Selector(selector)
                ==> selector.spec_identifier() == identifier@,
        ensures
            final(self)@ == if old(self)@.state is Selector {
                (JointView { state: SuspensionState::Empty, ..old(self)@ })
            } else {
                old(self)@
            },
    {
        let selecting = match &self.state {
            SuspensionState::Selector(_) => true,
            _ => false,
        };
        if selecting {
            self.state = SuspensionState::Empty;
        }
    }

    /// Takes the outcome after the coroutine went on.
    pub fn take(&mut self) -> (result: Result<T, PanicError<P>>)
        requires
            old(self)@.state.ready(),
        ensures
            final(self)@ == (JointView { state: SuspensionState::Joined, ..old(self)@ }),
            result == old(self)@.state.outcome(),
    {
        let mut state = SuspensionState::Joined;
        core::mem::swap(&mut state, &mut self.state);
        match state {
            SuspensionState::Value(value) => Ok(value),
            SuspensionState::Panicked(err) => Err(err),
            _ => vstd::pervasive::unreached(),
        }
    }

    fn join(&mut self, co: C) -> (joining: Joining<T, P>)
        requires
            old(self)@.state is Empty || old(self)@.state.ready(),
        ensures
            old(self)@.state is Empty ==> {
                &&& joining == Joining::<T, P>::Suspend
                &&& final(self)@ == (JointView {
                    state: SuspensionState::Joining(co),
                    ..old(self)@
                })
            },
            old(self)@.state.ready() ==> {
                &&& joining == Joining::Done(old(self)@.state.outcome())
                &&& final(self)@ == (JointView { state: SuspensionState::Joined, ..old(self)@ })
            },
    {
        if self.is_ready() {
            return Joining::Done(self.take());
        }
        self.state = SuspensionState::Joining(co);
        Joining::Suspend
    }
}

/// Suspension provides method to suspend calling coroutine.
pub struct Suspension {
    marker: (),
}

/// Resumption provides method to resume suspending coroutine.
pub struct Resumption {
    marker: (),
}

impl Suspension {
    /// Checks readiness.
    pub fn is_ready<T, P, C, W>(&self, joint: &SuspensionJoint<T, P, C, W>) -> (ready: bool)
        ensures
            ready == joint@.state.ready(),
    {
        joint.is_ready()
    }

    /// Suspends calling coroutine until [Resumption::resume].
    ///
    /// Either this panics and no value is sent, or it returns and only one value is sent.
    pub fn suspend<T, P, C, W>(self, joint: &mut SuspensionJoint<T, P, C, W>, co: C) -> (joining:
        Joining<T, P>)
        requires
            old(joint)@.state is Empty || old(joint)@.state.ready(),
        ensures
            old(joint)@.state is Empty ==> {
                &&& joining == Joining::<T, P>::Suspend
                &&& final(joint)@ == (JointView {
                    state: SuspensionState::Joining(co),
                    ..old(joint)@
                })
            },
            old(joint)@.state.ready() ==> {
                &&& joining == Joining::Done(old(joint)@.state.outcome())
                &&& final(joint)@ == (JointView { state: SuspensionState::Joined, ..old(joint)@ })
            },
    {
        joint.join(co)
    }

    /// Drops this suspension without suspending.
    pub fn close<T, P, C, W>(self, joint: &mut SuspensionJoint<T, P, C, W>) -> (wakeup: Wakeup<C, W>)
        ensures
            final(joint)@ == (JointView {
                state: old(joint)@.state.after_cancel(PanicError::Static(SUSPENSION_DROPPED)),
                ..old(joint)@
            }),
            wakeup == old(joint)@.state.waiting().without_coroutine(),
    {
        joint.cancel(PanicError::Static(SUSPENSION_DROPPED))
    }
}

impl Resumption {
    /// Resumes suspending coroutine. Returns whether it was not resumed before, and whom to wake.
    pub fn resume<T, P, C, W>(
        self,
        joint: &mut SuspensionJoint<T, P, C, W>,
        value: T,
    ) -> (resumed: (bool, Wakeup<C, W>))
        ensures
            final(joint)@ == (JointView {
                state: old(joint)@.state.after_wake(value),
                ..old(joint)@
            }),
            resumed == (!old(joint)@.state.settled(), old(joint)@.state.waiting()),
    {
        let (result, wakeup) = joint.wake(value);
        (result.is_ok(), wakeup)
    }

    /// Sends and wakes peer if not waked.
    pub fn send<T, P, C, W>(
        self,
        joint: &mut SuspensionJoint<T, P, C, W>,
        value: T,
    ) -> (sent: (Result<(), T>, Wakeup<C, W>))
        ensures
            final(joint)@ == (JointView {
                state: old(joint)@.state.after_wake(value),
                ..old(joint)@
            }),
            sent.0 == if old(joint)@.state.settled() {
                Err::<(), T>(value)
            } else {
                Ok(())
            },
            sent.1 == old(joint)@.state.waiting(),
    {
        joint.wake(value)
    }

    /// Settles the suspension with what a coroutine returned or panicked with.
    pub fn set_result<T, P, C, W>(
        self,
        joint: &mut SuspensionJoint<T, P, C, W>,
        result: Result<T, PanicError<P>>,
    ) -> (wakeup: Wakeup<C, W>)
        ensures
            final(joint)@ == (JointView {
                state: match result {
                    Ok(value) => old(joint)@.state.after_wake(value),
                    Err(err) => old(joint)@.state.after_cancel(err),
                },
                ..old(joint)@
            }),
            wakeup == old(joint)@.state.waiting(),
    {
        match result {
            Ok(value) => joint.wake(value).1,
            Err(err) => joint.fault(err),
        }
    }

    /// Constructs another resumption of the same suspension.
    pub fn another<T, P, C, W>(&self, joint: &mut SuspensionJoint<T, P, C, W>) -> (resumption:
        Resumption)
        requires
            old(joint)@.wakers < usize::MAX,
        ensures
            final(joint)@ == (JointView { wakers: old(joint)@.wakers + 1, ..old(joint)@ }),
    {
        joint.add_waker();
        Resumption { marker: () }
    }

    /// Drops this resumption without resuming. If all resumptions go so, the suspension fails.
    pub fn close<T, P, C, W>(self, joint: &mut SuspensionJoint<T, P, C, W>) -> (wakeup: Wakeup<C, W>)
        requires
            old(joint)@.wakers > 0,
        ensures
            final(joint)@.wakers == old(joint)@.wakers - 1,
            old(joint)@.wakers == 1 ==> {
                &&& wakeup == old(joint)@.state.waiting()
                &&& final(joint)@.state == old(joint)@.state.after_cancel(
                    PanicError::Static(NO_RESUMPTION),
                )
            },
            old(joint)@.wakers > 1 ==> {
                &&& wakeup == Wakeup::<C, W>::Nobody
                &&& final(joint)@.state == old(joint)@.state
            },
    {
        joint.remove_waker()
    }
}

/// Constructs cooperative facilities to suspend and resume coroutine in current task.
pub fn suspension<T, P, C, W>() -> (suspension: (
    SuspensionJoint<T, P, C, W>,
    Suspension,
    Resumption,
))
    ensures
        suspension.0@ == (JointView::<T, P, C, W> { state: SuspensionState::Empty, wakers: 1 }),
{
    (SuspensionJoint::new(), Suspension { marker: () }, Resumption { marker: () })
}

/// JoinHandle provides method to retrieve result of associated cooperative task.
pub struct JoinHandle {
    suspension: Option<Suspension>,
}

/// Message of the panic for joining what selection has consumed.
pub const ALREADY_JOINED: &'static str = "already joined by select";

impl JoinHandle {
    /// Whether the result has been consumed by selection.
    pub closed spec fn consumed(&self) -> bool {
        self.suspension is None
    }

    /// Constructs a handle to the coroutine that resumes the suspension with its result.
    pub fn new(suspension: Suspension) -> (handle: Self)
        ensures
            !handle.consumed(),
    {
        JoinHandle { suspension: Some(suspension) }
    }

    /// Returns true if the result has been consumed by selection.
    pub fn is_consumed(&self) -> (consumed: bool)
        ensures
            consumed == self.consumed(),
    {
        self.suspension.is_none()
    }

    /// Waits for associated coroutine to finish.
    pub fn join<T, P, C, W>(self, joint: &mut SuspensionJoint<T, P, C, W>, co: C) -> (joining:
        Joining<T, P>)
        requires
            !self.consumed(),
            old(joint)@.state is Empty || old(joint)@.state.ready(),
        ensures
            old(joint)@.state is Empty ==> {
                &&& joining == Joining::<T, P>::Suspend
                &&& final(joint)@ == (JointView {
                    state: SuspensionState::Joining(co),
                    ..old(joint)@
                })
            },
            old(joint)@.state.ready() ==> {
                &&& joining == Joining::Done(old(joint)@.state.outcome())
                &&& final(joint)@ == (JointView { state: SuspensionState::Joined, ..old(joint)@ })
            },
    {
        self.suspension.unwrap().suspend(joint, co)
    }

    /// Drops this handle without joining.
    pub fn close<T, P, C, W>(self, joint: &mut SuspensionJoint<T, P, C, W>) -> (wakeup: Wakeup<C, W>)
        ensures
            final(joint)@ == if self.consumed() {
                old(joint)@
            } else {
                (JointView {
                    state: old(joint)@.state.after_cancel(PanicError::Static(SUSPENSION_DROPPED)),
                    ..old(joint)@
                })
            },
            wakeup == if self.consumed() {
                Wakeup::Nobody
            } else {
                old(joint)@.state.waiting().without_coroutine()
            },
    {
        match self.suspension {
            Some(suspension) => suspension.close(joint),
            None => Wakeup::Nobody,
        }
    }

    /// Returns true if permit watching will contend with possible parallel executions.
    pub fn parallel(&self) -> (parallel: bool)
        ensures
            !parallel,
    {
        false
    }

    /// Select for available permit.
    pub fn select_permit<T, P, C, W>(&self, joint: &SuspensionJoint<T, P, C, W>) -> (permit: Result<
        Permit,
        TrySelectError,
    >)
        ensures
            if self.consumed() {
                permit == Err::<Permit, _>(TrySelectError::Completed)
            } else if joint@.state.ready() {
                permit is Ok && permit->Ok_0@ == (PermitView { primitive: 0, attendant: None })
            } else {
                permit == Err::<Permit, _>(TrySelectError::WouldBlock)
            },
    {
        match &self.suspension {
            None => Err(TrySelectError::Completed),
            Some(suspension) => if suspension.is_ready(joint) {
                Ok(Permit::default())
            } else {
                Err(TrySelectError::WouldBlock)
            },
        }
    }

    /// Watches for the result. Returns whether it is available now, and whom to wake then.
    pub fn watch_permit<T, P, C, W>(
        &self,
        joint: &mut SuspensionJoint<T, P, C, W>,
        selector: Selector<W>,
    ) -> (watched: (bool, Wakeup<C, W>))
        requires
            !self.consumed() ==> old(joint)@.state is Empty || old(joint)@.state.settled(),
        ensures
            watched.0 == (!self.consumed() && old(joint)@.state.settled()),
            watched.0 ==> {
                &&& final(joint)@ == old(joint)@
                &&& watched.1 == (Wakeup::<C, W>::Select {
                    waker: selector.spec_waker(),
                    index: selector.spec_index(),
                })
            },
            !watched.0 ==> {
                &&& final(joint)@ == if self.consumed() {
                    old(joint)@
                } else {
                    (JointView { state: SuspensionState::Selector(selector), ..old(joint)@ })
                }
                &&& watched.1 == Wakeup::<C, W>::Nobody
            },
    {
        if self.suspension.is_none() {
            return (false, Wakeup::Nobody);
        }
        joint.watch_permit(selector)
    }

    /// Unwatches possible applied selector.
    pub fn unwatch_permit<T, P, C, W>(
        &self,
        joint: &mut SuspensionJoint<T, P, C, W>,
        identifier: &Identifier,
    )
        requires
            !self.consumed() ==> (old(joint)@.state matches SuspensionState::Selector(selector)
                ==> selector.spec_identifier() == identifier@),
        ensures
            final(joint)@ == if !self.consumed() && old(joint)@.state is Selector {
                (JointView { state: SuspensionState::Empty, ..old(joint)@ })
            } else {
                old(joint)@
            },
    {
        if self.suspension.is_some() {
            joint.unwatch_permit(identifier);
        }
    }

    /// Consumes permit and reads the result. This operation does not block.
    pub fn consume_permit<T, P, C, W>(
        &mut self,
        joint: &mut SuspensionJoint<T, P, C, W>,
        _permit: Permit,
    ) -> (result: Result<T, JoinError<P>>)
        requires
            !old(self).consumed(),
            old(joint)@.state.ready(),
        ensures
            final(self).consumed(),
            final(joint)@ == (JointView { state: SuspensionState::Joined, ..old(joint)@ }),
            match old(joint)@.state.outcome() {
                Ok(value) => result == Ok::<T, JoinError<P>>(value),
                Err(err) => result is Err && result->Err_0@ == err,
            },
    {
        self.suspension = None;
        join_result(joint.take())
    }
}

/// At most one value or panic reaches the suspended coroutine, and it is the first.
pub proof fn law_first_settles<T, P, C, W>(
    state: SuspensionState<T, P, C, W>,
    value: T,
    other: T,
    err: PanicError<P>,
)
    ensures
        state.after_wake(value).settled(),
        state.after_cancel(err).settled(),
        state.settled() ==> state.after_wake(other) == state && state.after_cancel(err) == state,
        !state.settled() ==> {
            &&& state.after_wake(value).after_wake(other).outcome() == Ok::<T, PanicError<P>>(value)
            &&& state.after_wake(value).after_cancel(err).outcome() == Ok::<T, PanicError<P>>(value)
            &&& state.after_cancel(err).after_wake(other).outcome() == Err::<T, PanicError<P>>(err)
        },
{
}

/// Once the outcome has been taken, by suspending or by selection, no value can be sent.
pub proof fn law_no_value_after_join<T, P, C, W>(value: T, err: PanicError<P>)
    ensures
        SuspensionState::<T, P, C, W>::Joined.after_wake(value) is Joined,
        SuspensionState::<T, P, C, W>::Joined.after_cancel(err) is Joined,
{
}

/// A value reaches the suspension if and only if nothing has before it, and then whoever waits is
/// woken: the coroutine that suspended, or the selection that watches. Otherwise it comes back, and
/// nothing changes.
pub proof fn law_value_reaches_once<T, P, C, W>(
    resumption: Resumption,
    resuming: &mut SuspensionJoint<T, P, C, W>,
    sending: &mut SuspensionJoint<T, P, C, W>,
    value: T,
    resumed: (bool, Wakeup<C, W>),
    sent: (Result<(), T>, Wakeup<C, W>),
)
    requires
        call_ensures(Resumption::resume::<T, P, C, W>, (resumption, resuming, value), resumed),
        *old(sending) == *old(resuming),
        call_ensures(Resumption::send::<T, P, C, W>, (resumption, sending, value), sent),
    ensures
        final(sending)@ == final(resuming)@,
        final(resuming)@.wakers == old(resuming)@.wakers,
        sent.1 == resumed.1,
        sent.0 is Ok <==> resumed.0,
        sent.0 is Err ==> sent.0->Err_0 == value,
        resumed.0 <==> old(resuming)@.state is Empty || old(resuming)@.state is Joining
            || old(resuming)@.state is Selector,
        resumed.0 ==> final(resuming)@.state == SuspensionState::<T, P, C, W>::Value(value),
        !resumed.0 ==> final(resuming)@.state == old(resuming)@.state,
        old(resuming)@.state matches SuspensionState::Joining(co) ==> resumed.1
            == Wakeup::<C, W>::Coroutine(co),
        old(resuming)@.state matches SuspensionState::Selector(selector) ==> resumed.1 == (Wakeup::<
            C,
            W,
        >::Select { waker: selector.spec_waker(), index: selector.spec_index() }),
        !(old(resuming)@.state is Joining) && !(old(resuming)@.state is Selector)
            ==> resumed.1 is Nobody,
{
}

/// What a coroutine returned reaches the suspension as its value does, and what it panicked with as
/// the panic, if nothing has before it. Whoever waits is woken either way.
pub proof fn law_result_reaches_once<T, P, C, W>(
    resumption: Resumption,
    joint: &mut SuspensionJoint<T, P, C, W>,
    result: Result<T, PanicError<P>>,
    wakeup: Wakeup<C, W>,
)
    requires
        call_ensures(Resumption::set_result::<T, P, C, W>, (resumption, joint, result), wakeup),
    ensures
        final(joint)@.wakers == old(joint)@.wakers,
        old(joint)@.state is Value || old(joint)@.state is Panicked || old(joint)@.state is Joined
            ==> final(joint)@.state == old(joint)@.state && wakeup is Nobody,
        old(joint)@.state is Empty || old(joint)@.state is Joining || old(joint)@.state is Selector
            ==> {
            &&& result matches Ok(value) ==> final(joint)@.state == SuspensionState::<
                T,
                P,
                C,
                W,
            >::Value(value)
            &&& result matches Err(err) ==> final(joint)@.state == SuspensionState::<
                T,
                P,
                C,
                W,
            >::Panicked(err)
        },
        old(joint)@.state is Empty ==> wakeup is Nobody,
        old(joint)@.state matches SuspensionState::Joining(co) ==> wakeup
            == Wakeup::<C, W>::Coroutine(co),
        old(joint)@.state matches SuspensionState::Selector(selector) ==> wakeup == (Wakeup::<
            C,
            W,
        >::Select { waker: selector.spec_waker(), index: selector.spec_index() }),
{
}

/// What is resumed before it suspends goes on at once with that value, and what suspends first goes
/// on with it when resumed. The outcome is taken once.
pub proof fn law_suspends_until_resumed<T, P, C, W>(
    new: (SuspensionJoint<T, P, C, W>, Suspension, Resumption),
    value: T,
    co: C,
    early: &mut SuspensionJoint<T, P, C, W>,
    ready: &mut SuspensionJoint<T, P, C, W>,
    waiting: &mut SuspensionJoint<T, P, C, W>,
    late: &mut SuspensionJoint<T, P, C, W>,
    taking: &mut SuspensionJoint<T, P, C, W>,
    resumed: ((bool, Wakeup<C, W>), (bool, Wakeup<C, W>)),
    joining: (Joining<T, P>, Joining<T, P>),
    taken: Result<T, PanicError<P>>,
    readiness: (bool, bool),
)
    requires
        call_ensures(suspension::<T, P, C, W>, (), new),
        call_ensures(Suspension::is_ready::<T, P, C, W>, (&new.1, &new.0), readiness.0),
        *old(early) == new.0,
        call_ensures(Resumption::resume::<T, P, C, W>, (new.2, early, value), resumed.0),
        *old(ready) == *final(early),
        call_ensures(Suspension::is_ready::<T, P, C, W>, (&new.1, old(ready)), readiness.1),
        call_ensures(Suspension::suspend::<T, P, C, W>, (new.1, ready, co), joining.0),
        *old(waiting) == new.0,
        call_ensures(Suspension::suspend::<T, P, C, W>, (new.1, waiting, co), joining.1),
        *old(late) == *final(waiting),
        call_ensures(Resumption::resume::<T, P, C, W>, (new.2, late, value), resumed.1),
        *old(taking) == *final(late),
        call_ensures(SuspensionJoint::<T, P, C, W>::take, (taking,), taken),
    ensures
        new.0@.wakers == 1,
        readiness == (false, true),
        resumed.0.0 && resumed.0.1 is Nobody,
        joining.0 == Joining::Done(Ok::<T, PanicError<P>>(value)),
        final(ready)@.state is Joined,
        joining.1 is Suspend,
        resumed.1 == (true, Wakeup::<C, W>::Coroutine(co)),
        taken == Ok::<T, PanicError<P>>(value),
        final(taking)@.state is Joined,
        final(taking)@.wakers == 1,
{
}

/// An interrupted suspension fails with the reason, and so does one that is dropped, unless something
/// has reached it. The coroutine goes on by other means, but a selection that watches is woken.
pub proof fn law_interrupted<T, P, C, W>(
    suspension: Suspension,
    interrupting: &mut SuspensionJoint<T, P, C, W>,
    dropping: &mut SuspensionJoint<T, P, C, W>,
    reason: &'static str,
    interrupted: (bool, Wakeup<C, W>),
    wakeup: Wakeup<C, W>,
)
    requires
        call_ensures(
            SuspensionJoint::<T, P, C, W>::interrupt,
            (interrupting, reason),
            interrupted,
        ),
        *old(dropping) == *old(interrupting),
        call_ensures(Suspension::close::<T, P, C, W>, (suspension, dropping), wakeup),
    ensures
        interrupted.0,
        interrupted.1 == wakeup,
        final(interrupting)@.wakers == old(interrupting)@.wakers,
        final(dropping)@.wakers == old(dropping)@.wakers,
        old(dropping)@.state is Empty || old(dropping)@.state is Joining
            || old(dropping)@.state is Selector ==> {
            &&& final(interrupting)@.state == SuspensionState::<T, P, C, W>::Panicked(
                PanicError::Static(reason),
            )
            &&& final(dropping)@.state == SuspensionState::<T, P, C, W>::Panicked(
                PanicError::Static(SUSPENSION_DROPPED),
            )
        },
        old(dropping)@.state is Value || old(dropping)@.state is Panicked
            || old(dropping)@.state is Joined ==> {
            &&& final(interrupting)@.state == old(interrupting)@.state
            &&& final(dropping)@.state == old(dropping)@.state
        },
        old(dropping)@.state matches SuspensionState::Selector(selector) ==> wakeup == (Wakeup::<
            C,
            W,
        >::Select { waker: selector.spec_waker(), index: selector.spec_index() }),
        !(old(dropping)@.state is Selector) ==> wakeup is Nobody,
{
}

/// Only the last resumption to go unused fails the suspension, if nothing has reached it, and wakes
/// whoever waits. Another one is one more to go.
pub proof fn law_last_resumption<T, P, C, W>(
    resumption: Resumption,
    closing: &mut SuspensionJoint<T, P, C, W>,
    wakeup: Wakeup<C, W>,
    adding: &mut SuspensionJoint<T, P, C, W>,
    another: Resumption,
)
    requires
        old(closing)@.wakers > 0,
        call_ensures(Resumption::close::<T, P, C, W>, (resumption, closing), wakeup),
        call_ensures(Resumption::another::<T, P, C, W>, (&resumption, adding), another),
    ensures
        final(closing)@.wakers + 1 == old(closing)@.wakers,
        final(closing)@.wakers > 0 ==> final(closing)@.state == old(closing)@.state
            && wakeup is Nobody,
        old(closing)@.state is Value || old(closing)@.state is Panicked
            || old(closing)@.state is Joined ==> final(closing)@.state == old(closing)@.state
            && wakeup is Nobody,
        final(closing)@.wakers == 0 && (old(closing)@.state is Empty || old(closing)@.state is Joining
            || old(closing)@.state is Selector) ==> final(closing)@.state == SuspensionState::<
            T,
            P,
            C,
            W,
        >::Panicked(PanicError::Static(NO_RESUMPTION)),
        final(closing)@.wakers == 0 && old(closing)@.state is Empty ==> wakeup is Nobody,
        final(closing)@.wakers == 0 ==> (old(closing)@.state matches SuspensionState::Joining(co)
            ==> wakeup == Wakeup::<C, W>::Coroutine(co)),
        final(closing)@.wakers == 0 ==> (old(closing)@.state matches SuspensionState::Selector(
            selector,
        ) ==> wakeup == (Wakeup::<C, W>::Select {
            waker: selector.spec_waker(),
            index: selector.spec_index(),
        })),
        final(adding)@.wakers == old(adding)@.wakers + 1,
        final(adding)@.state == old(adding)@.state,
{
}

/// A handle joins as its suspension suspends. Once selection has consumed the result, it lets go of
/// nothing when dropped.
pub proof fn law_handle_joins<T, P, C, W>(
    suspension: Suspension,
    handle: JoinHandle,
    consumed: bool,
    co: C,
    joint: &mut SuspensionJoint<T, P, C, W>,
    joining: Joining<T, P>,
    dropped: JoinHandle,
    gone: bool,
    dropping: &mut SuspensionJoint<T, P, C, W>,
    closing: &mut SuspensionJoint<T, P, C, W>,
    wakeup: (Wakeup<C, W>, Wakeup<C, W>),
)
    requires
        call_ensures(JoinHandle::new, (suspension,), handle),
        call_ensures(JoinHandle::is_consumed, (&handle,), consumed),
        old(joint)@.state is Empty || old(joint)@.state is Value || old(joint)@.state is Panicked,
        call_ensures(JoinHandle::join::<T, P, C, W>, (handle, joint, co), joining),
        call_ensures(JoinHandle::is_consumed, (&dropped,), gone),
        call_ensures(JoinHandle::close::<T, P, C, W>, (dropped, dropping), wakeup.0),
        *old(closing) == *old(dropping),
        call_ensures(Suspension::close::<T, P, C, W>, (suspension, closing), wakeup.1),
    ensures
        !consumed,
        final(joint)@.wakers == old(joint)@.wakers,
        old(joint)@.state is Empty ==> joining is Suspend && final(joint)@.state
            == SuspensionState::<T, P, C, W>::Joining(co),
        old(joint)@.state matches SuspensionState::Value(value) ==> joining == Joining::Done(
            Ok::<T, PanicError<P>>(value),
        ) && final(joint)@.state is Joined,
        old(joint)@.state matches SuspensionState::Panicked(err) ==> joining == Joining::Done(
            Err::<T, PanicError<P>>(err),
        ) && final(joint)@.state is Joined,
        gone ==> final(dropping)@ == old(dropping)@ && wakeup.0 is Nobody,
        !gone ==> final(dropping)@ == final(closing)@ && wakeup.0 == wakeup.1,
{
}

/// There is a permit to read the result while there is one, and none for good once it is consumed.
/// Reading gives the value, or the panic as an error, once.
pub proof fn law_handle_selects<T, P, C, W>(
    handle: &JoinHandle,
    joint: &SuspensionJoint<T, P, C, W>,
    permit: Result<Permit, TrySelectError>,
    gone: (bool, bool),
    parallel: bool,
    reading: &mut JoinHandle,
    read: &mut SuspensionJoint<T, P, C, W>,
    consumed: Permit,
    result: Result<T, JoinError<P>>,
)
    requires
        call_ensures(JoinHandle::is_consumed, (handle,), gone.0),
        call_ensures(JoinHandle::select_permit::<T, P, C, W>, (handle, joint), permit),
        call_ensures(JoinHandle::parallel, (handle,), parallel),
        old(read)@.state is Value || old(read)@.state is Panicked,
        call_ensures(
            JoinHandle::consume_permit::<T, P, C, W>,
            (reading, read, consumed),
            result,
        ),
        call_ensures(JoinHandle::is_consumed, (final(reading),), gone.1),
    ensures
        !parallel,
        permit == Err::<Permit, _>(TrySelectError::Completed) <==> gone.0,
        permit is Ok <==> !gone.0 && (joint@.state is Value || joint@.state is Panicked),
        permit is Ok ==> permit->Ok_0@.primitive == 0 && permit->Ok_0@.attendant is None,
        gone.1,
        final(read)@.state is Joined,
        final(read)@.wakers == old(read)@.wakers,
        old(read)@.state matches SuspensionState::Value(value) ==> result == Ok::<T, JoinError<P>>(
            value,
        ),
        old(read)@.state matches SuspensionState::Panicked(err) ==> result is Err
            && result->Err_0@ == err,
{
}

/// Watching a result that is to come leaves the selector to be woken with it, and unwatching takes
/// it away again. One that is there, or was taken, is told at once, and nothing is left behind.
pub proof fn law_handle_unwatch_undoes_watch<T, P, C, W>(
    handle: &JoinHandle,
    gone: bool,
    watching: &mut SuspensionJoint<T, P, C, W>,
    unwatching: &mut SuspensionJoint<T, P, C, W>,
    selector: Selector<W>,
    identifier: &Identifier,
    watched: (bool, Wakeup<C, W>),
)
    requires
        call_ensures(JoinHandle::is_consumed, (handle,), gone),
        !(old(watching)@.state is Joining) && !(old(watching)@.state is Selector),
        call_ensures(
            JoinHandle::watch_permit::<T, P, C, W>,
            (handle, watching, selector),
            watched,
        ),
        *old(unwatching) == *final(watching),
        call_ensures(
            JoinHandle::unwatch_permit::<T, P, C, W>,
            (handle, unwatching, identifier),
            (),
        ),
    ensures
        watched.0 <==> !gone && !(old(watching)@.state is Empty),
        watched.0 ==> watched.1 == (Wakeup::<C, W>::Select {
            waker: selector.spec_waker(),
            index: selector.spec_index(),
        }) && final(watching)@ == old(watching)@,
        !watched.0 ==> watched.1 is Nobody,
        !watched.0 && !gone ==> final(watching)@.state == SuspensionState::<T, P, C, W>::Selector(
            selector,
        ) && final(watching)@.wakers == old(watching)@.wakers,
        gone ==> final(watching)@ == old(watching)@,
        final(unwatching)@ == old(watching)@,
{
}

} // verus!
