//! Channel utilities for communication across tasks.
//!
//! A channel is a value of its own here. Senders and receivers are handed the channel that they
//! belong to, and `wake`, which wakes a waiting session, thread or selection and tells whether it
//! was the first to do so.

pub mod state;

use vstd::prelude::*;

use self::state::{Capacity, RecvFlow, SendFlow, State, StateView, Waiter, Wakeup};
use super::error::{SendError, TryRecvError, TrySendError};
use super::order;
use super::order::{Event, Held};
use super::shared::Permit;
use crate::select;
use crate::select::{Identifier, Selector, TrySelectError};

verus! {

/// A channel and the number of its senders and receivers.
#[verifier::ext_equal]
pub struct ChannelView<T, W> {
    pub state: StateView<T, W>,
    pub senders: nat,
    pub receivers: nat,
}

pub struct Channel<T, W> {
    state: State<T, W>,
    senders: usize,
    receivers: usize,
}

impl<T, W> View for Channel<T, W> {
    type V = ChannelView<T, W>;

    closed spec fn view(&self) -> ChannelView<T, W> {
        ChannelView {
            state: self.state@,
            senders: self.senders as nat,
            receivers: self.receivers as nat,
        }
    }
}

impl<T, W> ChannelView<T, W> {
    /// A channel without senders, or without receivers, is closed.
    pub open spec fn inv(self) -> bool {
        &&& self.state.inv()
        &&& self.senders == 0 || self.receivers == 0 ==> self.state.closed
    }

    /// A channel with one sender and one receiver that nobody has used yet.
    pub open spec fn new(bound: nat) -> Self {
        ChannelView {
            state: StateView {
                closed: false,
                send_permits: 0,
                recv_permits: 0,
                bound,
                values: Seq::empty(),
                senders: Seq::empty(),
                receivers: Seq::empty(),
            },
            senders: 1,
            receivers: 1,
        }
    }

    pub open spec fn held(self) -> Held<T> {
        self.state.held()
    }

    pub open spec fn with_state(self, state: StateView<T, W>) -> Self {
        ChannelView { state, ..self }
    }

    /// Whether the channel has been closed, and everyone who waits in vain has been told.
    pub open spec fn closed_by<F: Fn(W, Wakeup<T>) -> bool>(self, after: Self, wake: F) -> bool {
        &&& after == self.with_state(self.state.after_close())
        &&& self.state.told_senders_closed(wake)
        &&& self.state.recvable_len() == 0 ==> self.state.told_receivers_closed(wake)
    }

    /// Whether a sender has gone. The last one closes the channel.
    pub open spec fn lost_sender<F: Fn(W, Wakeup<T>) -> bool>(self, after: Self, wake: F) -> bool {
        let fewer = ChannelView { senders: (self.senders - 1) as nat, ..self };
        if self.senders == 1 {
            fewer.closed_by(after, wake)
        } else {
            after == fewer
        }
    }

    /// Whether a receiver has gone. The last one closes the channel.
    pub open spec fn lost_receiver<F: Fn(W, Wakeup<T>) -> bool>(
        self,
        after: Self,
        wake: F,
    ) -> bool {
        let fewer = ChannelView { receivers: (self.receivers - 1) as nat, ..self };
        if self.receivers == 1 {
            fewer.closed_by(after, wake)
        } else {
            after == fewer
        }
    }

    /// Whether a receiver with the permit `permit` has taken `value`, and has gone if that is
    /// nothing.
    pub open spec fn received_by<F: Fn(W, Wakeup<T>) -> bool>(
        self,
        permit: Permit,
        value: Option<T>,
        after: Self,
        wake: F,
    ) -> bool {
        if permit == Permit::Closed {
            &&& value is None
            &&& self.lost_receiver(after, wake)
        } else if self.state.values.len() > 0 {
            &&& value == Some(self.state.values[0])
            &&& self.state.consumed(after.state, wake)
            &&& after == self.with_state(after.state)
        } else {
            &&& value is None
            &&& exists|consumed: StateView<T, W>| #[trigger]
                self.state.consumed(consumed, wake) && self.with_state(consumed).lost_receiver(
                    after,
                    wake,
                )
        }
    }
}

impl<T, W> Channel<T, W> {
    fn new(capacity: Capacity) -> (channel: Self)
        requires
            capacity.spec_max() > 0,
        ensures
            channel@.inv(),
            channel@ == ChannelView::<T, W>::new(capacity.spec_max() as nat),
    {
        Channel { state: State::new(capacity), senders: 1, receivers: 1 }
    }

    fn add_sender(&mut self)
        requires
            old(self)@.inv(),
            0 < old(self)@.senders < usize::MAX,
        ensures
            final(self)@.inv(),
            final(self)@ == (ChannelView { senders: old(self)@.senders + 1, ..old(self)@ }),
    {
        self.senders = self.senders + 1;
    }

    fn remove_sender<F: Fn(W, Wakeup<T>) -> bool>(&mut self, wake: &F)
        requires
            forall|waker: W, wakeup: Wakeup<T>| #[trigger] call_requires(*wake, (waker, wakeup)),
            old(self)@.inv(),
            0 < old(self)@.senders,
        ensures
            final(self)@.inv(),
            old(self)@.lost_sender(final(self)@, *wake),
    {
        self.senders = self.senders - 1;
        if self.senders == 0 {
            self.state.close(wake);
        }
    }

    fn add_receiver(&mut self)
        requires
            old(self)@.inv(),
            0 < old(self)@.receivers < usize::MAX,
        ensures
            final(self)@.inv(),
            final(self)@ == (ChannelView { receivers: old(self)@.receivers + 1, ..old(self)@ }),
    {
        self.receivers = self.receivers + 1;
    }

    fn remove_receiver<F: Fn(W, Wakeup<T>) -> bool>(&mut self, wake: &F)
        requires
            forall|waker: W, wakeup: Wakeup<T>| #[trigger] call_requires(*wake, (waker, wakeup)),
            old(self)@.inv(),
            0 < old(self)@.receivers,
        ensures
            final(self)@.inv(),
            old(self)@.lost_receiver(final(self)@, *wake),
    {
        self.receivers = self.receivers - 1;
        if self.receivers == 0 {
            self.state.close(wake);
        }
    }

    /// Queues a sender that has to wait.
    pub fn queue_sender(&mut self, waiter: Waiter<T, W>)
        requires
            old(self)@.inv(),
            !old(self)@.state.closed,
            old(self)@.state.full(),
        ensures
            final(self)@.inv(),
            old(self)@.held().passes(Event::Rest, final(self)@.held()),
            final(self)@ == old(self)@.with_state(
                StateView {
                    senders: old(self)@.state.senders.push(waiter),
                    ..old(self)@.state
                },
            ),
    {
        self.state.queue_sender(waiter);
    }

    /// Queues a receiver that has to wait.
    pub fn queue_receiver(&mut self, session: W)
        requires
            old(self)@.inv(),
            !old(self)@.state.drained(),
        ensures
            final(self)@.inv(),
            old(self)@.held().passes(Event::Rest, final(self)@.held()),
            final(self)@ == old(self)@.with_state(
                StateView {
                    receivers: old(self)@.state.receivers.push(
                        state::RecvWaiter::Receiver { session },
                    ),
                    ..old(self)@.state
                },
            ),
    {
        self.state.queue_receiver(session);
    }
}

/// Outcome of a send.
pub enum Sending<T> {
    Done(Result<(), SendError<T>>),
    /// Queue the value with a waker in [Channel::queue_sender], and go on with [Sender::sent].
    Wait { value: T },
}

/// Outcome of a receive.
pub enum Receiving<T> {
    Done(Option<T>),
    /// Queue a waker with [Channel::queue_receiver], and go on with [Receiver::received].
    Wait,
}

/// Sending peer of [Receiver]. Additional senders could be constructed by [Sender::another].
pub struct Sender {
    attached: bool,
}

impl Sender {
    /// Whether this sender is still counted by its channel.
    pub closed spec fn attached(&self) -> bool {
        self.attached
    }

    /// Whether this sender may be used with the channel.
    pub open spec fn of<T, W>(&self, channel: ChannelView<T, W>) -> bool {
        &&& channel.inv()
        &&& self.attached() ==> channel.senders > 0
    }

    /// Sends a value to receiving peer.
    ///
    /// This operation could block if channel is full.
    pub fn send<T, W, F: Fn(W, Wakeup<T>) -> bool>(
        &mut self,
        channel: &mut Channel<T, W>,
        value: T,
        wake: &F,
    ) -> (sending: Sending<T>)
        requires
            forall|waker: W, wakeup: Wakeup<T>| #[trigger] call_requires(*wake, (waker, wakeup)),
            old(self).of(old(channel)@),
        ensures
            final(self).of(final(channel)@),
            old(channel)@.held().passes(
                if sending == Sending::<T>::Done(Ok(())) {
                    Event::Sent(value)
                } else {
                    Event::Rest
                },
                final(channel)@.held(),
            ),
            ({
                let state = old(channel)@.state;
                if !old(self).attached() {
                    &&& sending == Sending::Done(Err(SendError::Closed(value)))
                    &&& !final(self).attached()
                    &&& final(channel)@ == old(channel)@
                } else if state.closed {
                    &&& sending == Sending::Done(Err(SendError::Closed(value)))
                    &&& !final(self).attached()
                    &&& old(channel)@.lost_sender(final(channel)@, *wake)
                } else if state.full() {
                    &&& sending == Sending::Wait { value }
                    &&& final(self).attached()
                    &&& final(channel)@ == old(channel)@
                } else {
                    &&& sending == Sending::<T>::Done(Ok(()))
                    &&& final(self).attached()
                    &&& final(channel)@ == old(channel)@.with_state(final(channel)@.state)
                    &&& exists|n: int| #[trigger]
                        state.after_push(value).offered_value(final(channel)@.state, n, *wake)
                }
            }),
    {
        if self.attached {
            return match channel.state.send(false, value, wake) {
                SendFlow::Done(Ok(_)) => Sending::Done(Ok(())),
                SendFlow::Wait { value } => Sending::Wait { value },
                SendFlow::Done(Err(err)) => {
                    channel.remove_sender(wake);
                    self.attached = false;
                    Sending::Done(Err(SendError::from_try(err)))
                },
            };
        }
        Sending::Done(Err(SendError::Closed(value)))
    }

    /// Ends a send that had to wait, with what its waker was woken with.
    pub fn sent<T, W, F: Fn(W, Wakeup<T>) -> bool>(
        &mut self,
        channel: &mut Channel<T, W>,
        result: Result<(), SendError<T>>,
        wake: &F,
    ) -> (sent: Result<(), SendError<T>>)
        requires
            forall|waker: W, wakeup: Wakeup<T>| #[trigger] call_requires(*wake, (waker, wakeup)),
            old(self).of(old(channel)@),
        ensures
            final(self).of(final(channel)@),
            old(channel)@.held().passes(Event::Rest, final(channel)@.held()),
            sent == result,
            result is Ok || !old(self).attached() ==> {
                &&& final(self).attached() == old(self).attached()
                &&& final(channel)@ == old(channel)@
            },
            result is Err && old(self).attached() ==> {
                &&& !final(self).attached()
                &&& old(channel)@.lost_sender(final(channel)@, *wake)
            },
    {
        if result.is_err() && self.attached {
            channel.remove_sender(wake);
            self.attached = false;
        }
        result
    }

    /// Attempts to send a value to receiver peer without blocking current execution.
    pub fn try_send<T, W, F: Fn(W, Wakeup<T>) -> bool>(
        &mut self,
        channel: &mut Channel<T, W>,
        value: T,
        wake: &F,
    ) -> (result: Result<(), TrySendError<T>>)
        requires
            forall|waker: W, wakeup: Wakeup<T>| #[trigger] call_requires(*wake, (waker, wakeup)),
            old(self).of(old(channel)@),
        ensures
            final(self).of(final(channel)@),
            old(channel)@.held().passes(
                if result is Ok {
                    Event::Sent(value)
                } else {
                    Event::Rest
                },
                final(channel)@.held(),
            ),
            ({
                let state = old(channel)@.state;
                if !old(self).attached() {
                    &&& result == Err::<(), _>(TrySendError::Closed(value))
                    &&& !final(self).attached()
                    &&& final(channel)@ == old(channel)@
                } else if state.closed {
                    &&& result == Err::<(), _>(TrySendError::Closed(value))
                    &&& !final(self).attached()
                    &&& old(channel)@.lost_sender(final(channel)@, *wake)
                } else if state.full() {
                    &&& result == Err::<(), _>(TrySendError::Full(value))
                    &&& final(self).attached()
                    &&& final(channel)@ == old(channel)@
                } else {
                    &&& result is Ok
                    &&& final(self).attached()
                    &&& final(channel)@ == old(channel)@.with_state(final(channel)@.state)
                    &&& exists|n: int| #[trigger]
                        state.after_push(value).offered_value(final(channel)@.state, n, *wake)
                }
            }),
    {
        if self.attached {
            return match channel.state.send(true, value, wake) {
                SendFlow::Done(Ok(_)) => Ok(()),
                SendFlow::Wait { value } => Err(TrySendError::Full(value)),
                SendFlow::Done(Err(TrySendError::Full(value))) => Err(TrySendError::Full(value)),
                SendFlow::Done(Err(TrySendError::Closed(value))) => {
                    channel.remove_sender(wake);
                    self.attached = false;
                    Err(TrySendError::Closed(value))
                },
            };
        }
        Err(TrySendError::Closed(value))
    }

    /// Closes this sender. If this is the last sender, the underlying channel will also be closed.
    pub fn close<T, W, F: Fn(W, Wakeup<T>) -> bool>(
        &mut self,
        channel: &mut Channel<T, W>,
        wake: &F,
    )
        requires
            forall|waker: W, wakeup: Wakeup<T>| #[trigger] call_requires(*wake, (waker, wakeup)),
            old(self).of(old(channel)@),
        ensures
            final(self).of(final(channel)@),
            old(channel)@.held().passes(Event::Rest, final(channel)@.held()),
            !final(self).attached(),
            if old(self).attached() {
                old(channel)@.lost_sender(final(channel)@, *wake)
            } else {
                final(channel)@ == old(channel)@
            },
    {
        if self.attached {
            self.attached = false;
            channel.remove_sender(wake);
        }
    }

    /// Returns true if sender or channel closed.
    ///
    /// It may not reflect newest channel status, but it must reflect last send or close.
    pub fn is_closed(&self) -> (closed: bool)
        ensures
            closed == !self.attached(),
    {
        !self.attached
    }

    /// Constructs another sender of the same channel, closed if this one is.
    pub fn another<T, W>(&self, channel: &mut Channel<T, W>) -> (sender: Sender)
        requires
            self.of(old(channel)@),
            old(channel)@.senders < usize::MAX,
        ensures
            self.of(final(channel)@),
            old(channel)@.held().passes(Event::Rest, final(channel)@.held()),
            sender.of(final(channel)@),
            sender.attached() == self.attached(),
            final(channel)@ == if self.attached() {
                (ChannelView { senders: old(channel)@.senders + 1, ..old(channel)@ })
            } else {
                old(channel)@
            },
    {
        if self.attached {
            channel.add_sender();
        }
        Sender { attached: self.attached }
    }

    /// Returns true if permit watching will contend with possible parallel executions.
    pub fn parallel(&self) -> (parallel: bool)
        ensures
            parallel == self.attached(),
    {
        self.attached
    }

    /// Select for available permit.
    pub fn select_permit<T, W>(&self, channel: &mut Channel<T, W>) -> (permit: Result<
        select::Permit,
        TrySelectError,
    >)
        requires
            self.of(old(channel)@),
        ensures
            self.of(final(channel)@),
            old(channel)@.held().passes(Event::Rest, final(channel)@.held()),
            !self.attached() ==> final(channel)@ == old(channel)@ && permit == Err::<
                select::Permit,
                _,
            >(TrySelectError::Completed),
            self.attached() ==> {
                &&& final(channel)@ == old(channel)@.with_state(
                    old(channel)@.state.send_permit().1,
                )
                &&& match old(channel)@.state.send_permit().0 {
                    Some(own) => permit is Ok && permit->Ok_0@ == (select::PermitView {
                        primitive: own.spec_primitive(),
                        attendant: None,
                    }),
                    None => permit == Err::<select::Permit, _>(TrySelectError::WouldBlock),
                }
            },
    {
        if self.attached {
            match channel.state.select_send_permit() {
                Some(permit) => Ok(permit.into_select()),
                None => Err(TrySelectError::WouldBlock),
            }
        } else {
            Err(TrySelectError::Completed)
        }
    }

    /// Watches for available permit.
    ///
    /// If permit is available now, applies it and returns true.
    pub fn watch_permit<T, W, F: Fn(W, Wakeup<T>) -> bool>(
        &self,
        channel: &mut Channel<T, W>,
        selector: Selector<W>,
        wake: &F,
    ) -> (permitted: bool)
        requires
            forall|waker: W, wakeup: Wakeup<T>| #[trigger] call_requires(*wake, (waker, wakeup)),
            self.of(old(channel)@),
        ensures
            self.of(final(channel)@),
            old(channel)@.held().passes(Event::Rest, final(channel)@.held()),
            !self.attached() ==> !permitted && final(channel)@ == old(channel)@,
            self.attached() ==> {
                let state = old(channel)@.state;
                &&& final(channel)@ == old(channel)@.with_state(final(channel)@.state)
                &&& permitted <==> state.send_permit().0 is Some
                &&& !permitted ==> final(channel)@.state == (StateView {
                    senders: state.senders.push(Waiter::Selector { selector }),
                    ..state
                })
                &&& permitted ==> exists|applied: bool| #[trigger]
                    state.applied(
                        final(channel)@.state,
                        state.send_permit().1,
                        state.send_permit().0->0,
                        selector,
                        *wake,
                        applied,
                    )
            },
    {
        if self.attached {
            channel.state.watch_send_permit(selector, wake)
        } else {
            false
        }
    }

    /// Unwatches possible applied selector.
    pub fn unwatch_permit<T, W>(&self, channel: &mut Channel<T, W>, identifier: &Identifier)
        requires
            self.of(old(channel)@),
        ensures
            self.of(final(channel)@),
            old(channel)@.held().passes(Event::Rest, final(channel)@.held()),
            final(channel)@ == old(channel)@.with_state(final(channel)@.state),
            if self.attached() {
                old(channel)@.state.unwatched_sender(final(channel)@.state, identifier@)
            } else {
                final(channel)@ == old(channel)@
            },
    {
        if self.attached {
            channel.state.unwatch_send_permit(identifier)
        }
    }

    /// Consumes permit and writes given value. This operation does not block.
    pub fn consume_permit<T, W, F: Fn(W, Wakeup<T>) -> bool>(
        &mut self,
        channel: &mut Channel<T, W>,
        permit: select::Permit,
        value: T,
        wake: &F,
    ) -> (result: Result<(), SendError<T>>)
        requires
            forall|waker: W, wakeup: Wakeup<T>| #[trigger] call_requires(*wake, (waker, wakeup)),
            old(self).of(old(channel)@),
            permit@.attendant is None,
            permit@.primitive < 2,
            permit@.primitive == Permit::Consume.spec_primitive() && old(self).attached()
                ==> old(channel)@.state.send_permits > 0 && old(channel)@.state.recv_permits
                < usize::MAX,
        ensures
            final(self).of(final(channel)@),
            old(channel)@.held().passes(
                if result is Ok {
                    Event::Sent(value)
                } else {
                    Event::Rest
                },
                final(channel)@.held(),
            ),
            if permit@.primitive == Permit::Closed.spec_primitive() || !old(self).attached() {
                &&& result == Err::<(), _>(SendError::Closed(value))
                &&& !final(self).attached()
                &&& final(channel)@ == old(channel)@
            } else {
                let sent = old(channel)@.state.after_permitted_push(value);
                &&& result is Ok
                &&& final(self).attached()
                &&& final(channel)@ == old(channel)@.with_state(final(channel)@.state)
                &&& exists|n: int| #[trigger] sent.offered_value(final(channel)@.state, n, *wake)
            },
    {
        let permit = Permit::from_select(permit);
        if permit == Permit::Closed {
            self.attached = false;
            Err(SendError::Closed(value))
        } else if self.attached {
            channel.state.consume_send_permit(value, wake)
        } else {
            Err(SendError::Closed(value))
        }
    }
}

/// Receiving peer of [Sender]. Additional receivers could be constructed by [Receiver::another].
pub struct Receiver {
    attached: bool,
}

impl Receiver {
    /// Whether this receiver is still counted by its channel.
    pub closed spec fn attached(&self) -> bool {
        self.attached
    }

    /// Whether this receiver may be used with the channel.
    pub open spec fn of<T, W>(&self, channel: ChannelView<T, W>) -> bool {
        &&& channel.inv()
        &&& self.attached() ==> channel.receivers > 0
    }

    /// Receives a value from [Sender]s.
    ///
    /// Gives `None` if channel is closed and has no buffered values.
    pub fn recv<T, W, F: Fn(W, Wakeup<T>) -> bool>(
        &mut self,
        channel: &mut Channel<T, W>,
        wake: &F,
    ) -> (receiving: Receiving<T>)
        requires
            forall|waker: W, wakeup: Wakeup<T>| #[trigger] call_requires(*wake, (waker, wakeup)),
            old(self).of(old(channel)@),
        ensures
            final(self).of(final(channel)@),
            match receiving {
                Receiving::Done(Some(value)) => old(channel)@.held().gives(
                    value,
                    final(channel)@.held(),
                ),
                Receiving::Done(None) => old(self).attached() ==> old(channel)@.held().passes(
                    Event::Ended,
                    final(channel)@.held(),
                ),
                Receiving::Wait => old(channel)@.held().passes(
                    Event::Rest,
                    final(channel)@.held(),
                ),
            },
            ({
                let state = old(channel)@.state;
                if !old(self).attached() {
                    &&& receiving == Receiving::<T>::Done(None)
                    &&& !final(self).attached()
                    &&& final(channel)@ == old(channel)@
                } else if state.drained() {
                    &&& receiving == Receiving::<T>::Done(None)
                    &&& !final(self).attached()
                    &&& old(channel)@.lost_receiver(final(channel)@, *wake)
                } else if state.empty() {
                    &&& receiving == Receiving::<T>::Wait
                    &&& final(self).attached()
                    &&& final(channel)@ == old(channel)@
                } else {
                    &&& receiving == Receiving::Done(Some(state.values[0]))
                    &&& final(self).attached()
                    &&& final(channel)@ == old(channel)@.with_state(final(channel)@.state)
                    &&& state.popped(final(channel)@.state, *wake)
                }
            }),
    {
        if self.attached {
            return match channel.state.recv(false, wake) {
                RecvFlow::Done(Ok(value)) => {
                    proof {
                        state::lemma_popped(old(channel)@.state, channel@.state, *wake);
                    }
                    Receiving::Done(Some(value))
                },
                RecvFlow::Wait => Receiving::Wait,
                RecvFlow::Done(Err(_)) => {
                    channel.remove_receiver(wake);
                    self.attached = false;
                    Receiving::Done(None)
                },
            };
        }
        Receiving::Done(None)
    }

    /// Ends a receive that had to wait, with the permit that its waker was woken with.
    pub fn received<T, W, F: Fn(W, Wakeup<T>) -> bool>(
        &mut self,
        channel: &mut Channel<T, W>,
        permit: Permit,
        wake: &F,
    ) -> (value: Option<T>)
        requires
            forall|waker: W, wakeup: Wakeup<T>| #[trigger] call_requires(*wake, (waker, wakeup)),
            old(self).of(old(channel)@),
            old(self).attached(),
            permit == Permit::Consume ==> old(channel)@.state.recv_permits > 0,
        ensures
            final(self).of(final(channel)@),
            match value {
                Some(value) => old(channel)@.held().gives(value, final(channel)@.held()),
                None => old(channel)@.held().passes(
                    if old(channel)@.held().drained() {
                        Event::Ended
                    } else {
                        Event::Rest
                    },
                    final(channel)@.held(),
                ),
            },
            old(channel)@.received_by(permit, value, final(channel)@, *wake),
            final(self).attached() == value is Some,
    {
        match channel.state.recv_permitted(permit, wake) {
            Ok(value) => {
                proof {
                    state::lemma_consumed(old(channel)@.state, channel@.state, *wake);
                }
                Some(value)
            },
            Err(_) => {
                let ghost consumed = channel@;
                channel.remove_receiver(wake);
                self.attached = false;
                assert(consumed.lost_receiver(channel@, *wake));
                None
            },
        }
    }

    /// Attempts to receive a value from channel without blocking current execution.
    pub fn try_recv<T, W, F: Fn(W, Wakeup<T>) -> bool>(
        &mut self,
        channel: &mut Channel<T, W>,
        wake: &F,
    ) -> (result: Result<T, TryRecvError>)
        requires
            forall|waker: W, wakeup: Wakeup<T>| #[trigger] call_requires(*wake, (waker, wakeup)),
            old(self).of(old(channel)@),
        ensures
            final(self).of(final(channel)@),
            match result {
                Ok(value) => old(channel)@.held().gives(value, final(channel)@.held()),
                Err(TryRecvError::Closed) => old(self).attached()
                    ==> old(channel)@.held().passes(Event::Ended, final(channel)@.held()),
                Err(TryRecvError::Empty) => old(channel)@.held().passes(
                    Event::Rest,
                    final(channel)@.held(),
                ),
            },
            ({
                let state = old(channel)@.state;
                if !old(self).attached() {
                    &&& result == Err::<T, _>(TryRecvError::Closed)
                    &&& !final(self).attached()
                    &&& final(channel)@ == old(channel)@
                } else if state.drained() {
                    &&& result == Err::<T, _>(TryRecvError::Closed)
                    &&& !final(self).attached()
                    &&& old(channel)@.lost_receiver(final(channel)@, *wake)
                } else if state.empty() {
                    &&& result == Err::<T, _>(TryRecvError::Empty)
                    &&& final(self).attached()
                    &&& final(channel)@ == old(channel)@
                } else {
                    &&& result == Ok::<_, TryRecvError>(state.values[0])
                    &&& final(self).attached()
                    &&& final(channel)@ == old(channel)@.with_state(final(channel)@.state)
                    &&& state.popped(final(channel)@.state, *wake)
                }
            }),
    {
        if self.attached {
            return match channel.state.recv(true, wake) {
                RecvFlow::Done(Ok(value)) => {
                    proof {
                        state::lemma_popped(old(channel)@.state, channel@.state, *wake);
                    }
                    Ok(value)
                },
                RecvFlow::Wait => Err(TryRecvError::Empty),
                RecvFlow::Done(Err(TryRecvError::Empty)) => Err(TryRecvError::Empty),
                RecvFlow::Done(Err(TryRecvError::Closed)) => {
                    channel.remove_receiver(wake);
                    self.attached = false;
                    Err(TryRecvError::Closed)
                },
            };
        }
        Err(TryRecvError::Closed)
    }

    /// Closes this channel for future sending.
    pub fn close<T, W, F: Fn(W, Wakeup<T>) -> bool>(
        &mut self,
        channel: &mut Channel<T, W>,
        wake: &F,
    )
        requires
            forall|waker: W, wakeup: Wakeup<T>| #[trigger] call_requires(*wake, (waker, wakeup)),
            old(self).of(old(channel)@),
        ensures
            final(self).of(final(channel)@),
            old(channel)@.held().passes(Event::Rest, final(channel)@.held()),
            final(self).attached() == old(self).attached(),
            if old(self).attached() {
                old(channel)@.closed_by(final(channel)@, *wake)
            } else {
                final(channel)@ == old(channel)@
            },
    {
        if self.attached {
            channel.state.close(wake);
        }
    }

    /// Drops this receiver. If this is the last receiver, the underlying channel will be closed.
    pub fn terminate<T, W, F: Fn(W, Wakeup<T>) -> bool>(
        &mut self,
        channel: &mut Channel<T, W>,
        wake: &F,
    )
        requires
            forall|waker: W, wakeup: Wakeup<T>| #[trigger] call_requires(*wake, (waker, wakeup)),
            old(self).of(old(channel)@),
        ensures
            final(self).of(final(channel)@),
            old(channel)@.held().passes(Event::Rest, final(channel)@.held()),
            !final(self).attached(),
            if old(self).attached() {
                old(channel)@.lost_receiver(final(channel)@, *wake)
            } else {
                final(channel)@ == old(channel)@
            },
    {
        if self.attached {
            self.attached = false;
            channel.remove_receiver(wake);
        }
    }

    /// Returns true if channel is closed and has no buffered values.
    ///
    /// It may not reflect newest channel status, but it must reflect last recv.
    pub fn is_drained(&self) -> (drained: bool)
        ensures
            drained == !self.attached(),
    {
        !self.attached
    }

    /// Constructs another receiver of the same channel, drained if this one is.
    pub fn another<T, W>(&self, channel: &mut Channel<T, W>) -> (receiver: Receiver)
        requires
            self.of(old(channel)@),
            old(channel)@.receivers < usize::MAX,
        ensures
            self.of(final(channel)@),
            old(channel)@.held().passes(Event::Rest, final(channel)@.held()),
            receiver.of(final(channel)@),
            receiver.attached() == self.attached(),
            final(channel)@ == if self.attached() {
                (ChannelView { receivers: old(channel)@.receivers + 1, ..old(channel)@ })
            } else {
                old(channel)@
            },
    {
        if self.attached {
            channel.add_receiver();
        }
        Receiver { attached: self.attached }
    }

    /// Returns true if permit watching will contend with possible parallel executions.
    pub fn parallel(&self) -> (parallel: bool)
        ensures
            parallel == self.attached(),
    {
        self.attached
    }

    /// Select for available permit.
    pub fn select_permit<T, W>(&self, channel: &mut Channel<T, W>) -> (permit: Result<
        select::Permit,
        TrySelectError,
    >)
        requires
            self.of(old(channel)@),
            old(channel)@.state.recv_permits < usize::MAX,
        ensures
            self.of(final(channel)@),
            old(channel)@.held().passes(Event::Rest, final(channel)@.held()),
            !self.attached() ==> final(channel)@ == old(channel)@ && permit == Err::<
                select::Permit,
                _,
            >(TrySelectError::Completed),
            self.attached() ==> {
                &&& final(channel)@ == old(channel)@.with_state(
                    old(channel)@.state.recv_permit().1,
                )
                &&& match old(channel)@.state.recv_permit().0 {
                    Some(own) => permit is Ok && permit->Ok_0@ == (select::PermitView {
                        primitive: own.spec_primitive(),
                        attendant: None,
                    }),
                    None => permit == Err::<select::Permit, _>(TrySelectError::WouldBlock),
                }
            },
    {
        if self.attached {
            match channel.state.select_recv_permit() {
                Some(permit) => Ok(permit.into_select()),
                None => Err(TrySelectError::WouldBlock),
            }
        } else {
            Err(TrySelectError::Completed)
        }
    }

    /// Watches for available permit.
    ///
    /// If permit is available now, applies it and returns true.
    pub fn watch_permit<T, W, F: Fn(W, Wakeup<T>) -> bool>(
        &self,
        channel: &mut Channel<T, W>,
        selector: Selector<W>,
        wake: &F,
    ) -> (permitted: bool)
        requires
            forall|waker: W, wakeup: Wakeup<T>| #[trigger] call_requires(*wake, (waker, wakeup)),
            self.of(old(channel)@),
            old(channel)@.state.recv_permits < usize::MAX,
        ensures
            self.of(final(channel)@),
            old(channel)@.held().passes(Event::Rest, final(channel)@.held()),
            !self.attached() ==> !permitted && final(channel)@ == old(channel)@,
            self.attached() ==> {
                let state = old(channel)@.state;
                &&& final(channel)@ == old(channel)@.with_state(final(channel)@.state)
                &&& permitted <==> state.recv_permit().0 is Some
                &&& !permitted ==> final(channel)@.state == (StateView {
                    receivers: state.receivers.push(state::RecvWaiter::Selector { selector }),
                    ..state
                })
                &&& permitted ==> exists|applied: bool| #[trigger]
                    state.applied(
                        final(channel)@.state,
                        state.recv_permit().1,
                        state.recv_permit().0->0,
                        selector,
                        *wake,
                        applied,
                    )
            },
    {
        if self.attached {
            channel.state.watch_recv_permit(selector, wake)
        } else {
            false
        }
    }

    /// Unwatches possible applied selector.
    pub fn unwatch_permit<T, W>(&self, channel: &mut Channel<T, W>, identifier: &Identifier)
        requires
            self.of(old(channel)@),
        ensures
            self.of(final(channel)@),
            old(channel)@.held().passes(Event::Rest, final(channel)@.held()),
            final(channel)@ == old(channel)@.with_state(final(channel)@.state),
            if self.attached() {
                old(channel)@.state.unwatched_receiver(final(channel)@.state, identifier@)
            } else {
                final(channel)@ == old(channel)@
            },
    {
        if self.attached {
            channel.state.unwatch_recv_permit(identifier)
        }
    }

    /// Consumes permit and reads a value. This operation does not block.
    pub fn consume_permit<T, W, F: Fn(W, Wakeup<T>) -> bool>(
        &mut self,
        channel: &mut Channel<T, W>,
        permit: select::Permit,
        wake: &F,
    ) -> (value: Option<T>)
        requires
            forall|waker: W, wakeup: Wakeup<T>| #[trigger] call_requires(*wake, (waker, wakeup)),
            old(self).of(old(channel)@),
            permit@.attendant is None,
            permit@.primitive < 2,
            permit@.primitive == Permit::Consume.spec_primitive() && old(self).attached()
                ==> old(channel)@.state.recv_permits > 0,
        ensures
            final(self).of(final(channel)@),
            match value {
                Some(value) => old(channel)@.held().gives(value, final(channel)@.held()),
                None => old(channel)@.held().passes(
                    if old(channel)@.held().drained() {
                        Event::Ended
                    } else {
                        Event::Rest
                    },
                    final(channel)@.held(),
                ),
            },
            if permit@.primitive == Permit::Closed.spec_primitive() || !old(self).attached() {
                &&& value is None
                &&& !final(self).attached()
                &&& final(channel)@ == old(channel)@
            } else {
                &&& old(channel)@.received_by(Permit::Consume, value, final(channel)@, *wake)
                &&& final(self).attached() == value is Some
            },
    {
        let permit = Permit::from_select(permit);
        if permit == Permit::Closed {
            self.attached = false;
            None
        } else if self.attached {
            let result = channel.state.consume_recv_permit(wake);
            proof {
                state::lemma_consumed(old(channel)@.state, channel@.state, *wake);
            }
            if result.is_none() {
                let ghost consumed = channel@;
                channel.remove_receiver(wake);
                self.attached = false;
                assert(consumed.lost_receiver(channel@, *wake));
            }
            result
        } else {
            None
        }
    }
}

/// Constructs a bounded FIFO channel.
pub fn bounded<T, W>(bound: usize) -> (channel: (Channel<T, W>, Sender, Receiver))
    requires
        bound > 0,
    ensures
        channel.0@ == ChannelView::<T, W>::new(bound as nat),
        channel.0@.inv(),
        channel.1.attached(),
        channel.2.attached(),
{
    (Channel::new(Capacity::bounded(bound)), Sender { attached: true }, Receiver { attached: true })
}

/// Constructs an unbounded FIFO channel.
pub fn unbounded<T, W>(initial_capacity: usize) -> (channel: (Channel<T, W>, Sender, Receiver))
    ensures
        channel.0@ == ChannelView::<T, W>::new(usize::MAX as nat),
        channel.0@.inv(),
        channel.1.attached(),
        channel.2.attached(),
{
    (
        Channel::new(Capacity::unbounded(initial_capacity)),
        Sender { attached: true },
        Receiver { attached: true },
    )
}

/// The only receiver of a channel, once woken, gets what it was woken for, whatever senders do
/// meanwhile: the oldest value, or nothing if it was told that no value will come.
pub proof fn law_only_receiver<T, W, F: Fn(W, Wakeup<T>) -> bool>(
    held: Seq<Held<T>>,
    events: Seq<Event<T>>,
    before: ChannelView<T, W>,
    permit: Permit,
    value: Option<T>,
    after: ChannelView<T, W>,
    wake: F,
)
    requires
        order::history(held, events),
        forall|i: int| 0 <= i < events.len() ==> !(#[trigger] events[i] is Received),
        permit == Permit::Consume ==> held[0].values.len() > 0,
        permit == Permit::Closed ==> held[0].drained(),
        held.last() == before.held(),
        before.inv(),
        permit == Permit::Consume ==> before.state.recv_permits > 0,
        before.received_by(permit, value, after, wake),
    ensures
        permit == Permit::Consume ==> {
            &&& value == Some(held[0].values[0])
            &&& before.held().gives(held[0].values[0], after.held())
        },
        permit == Permit::Closed ==> {
            &&& value is None
            &&& before.held().passes(Event::Ended, after.held())
        },
{
    order::law_first_stays(held, events);
    if permit == Permit::Consume {
        state::lemma_consumed(before.state, after.state, wake);
    }
}

/// A channel stays open while a sender is left. When a sender closes, nothing of the channel changes
/// but its number of senders, unless it was the last: then the channel is closed. Everyone who waits
/// to send is told so then, and gets back exactly the value that it wanted to send. Those who wait
/// to receive are told if no value will come, and wait on otherwise. Buffered values stay.
pub proof fn law_last_sender_closes<T, W, F: Fn(W, Wakeup<T>) -> bool>(
    sender: &mut Sender,
    channel: &mut Channel<T, W>,
    wake: &F,
    i: int,
)
    requires
        call_ensures(Sender::close::<T, W, F>, (sender, channel, wake), ()),
        old(channel)@.inv(),
    ensures
        !final(sender).attached(),
        !old(sender).attached() ==> final(channel)@ == old(channel)@,
        old(sender).attached() && old(channel)@.senders > 0 ==> {
            &&& final(channel)@.senders + 1 == old(channel)@.senders
            &&& final(channel)@.state.closed == (old(channel)@.state.closed
                || final(channel)@.senders == 0)
        },
        final(channel)@.receivers == old(channel)@.receivers,
        !final(channel)@.state.closed ==> final(channel)@.state
            == old(channel)@.state,
        final(channel)@.state.closed && !old(channel)@.state.closed ==> {
            &&& final(channel)@.state.senders.len() == 0
            &&& 0 <= i < old(channel)@.state.senders.len() ==> {
                &&& old(channel)@.state.senders[i] matches Waiter::Task { waker, value } ==> exists|waked: bool|
                    #[trigger]
                    call_ensures(*wake, (waker, Wakeup::Sent(Err(SendError::Closed(value)))), waked)
                &&& old(channel)@.state.senders[i] matches Waiter::Thread { waker, value } ==> exists|waked: bool|
                    #[trigger]
                    call_ensures(*wake, (waker, Wakeup::Sent(Err(SendError::Closed(value)))), waked)
                &&& old(channel)@.state.senders[i] matches Waiter::Selector { selector } ==> exists|waked: bool|
                    #[trigger]
                    call_ensures(
                        *wake,
                        (
                            selector.spec_waker(),
                            Wakeup::Select { index: selector.spec_index(), permit: Permit::Closed },
                        ),
                        waked,
                    )
            }
            &&& final(channel)@.state.values == old(channel)@.state.values
            &&& final(channel)@.state.send_permits == old(channel)@.state.send_permits
            &&& final(channel)@.state.recv_permits == old(channel)@.state.recv_permits
            &&& final(channel)@.state.bound == old(channel)@.state.bound
            &&& old(channel)@.state.values.len() + old(channel)@.state.send_permits == 0 ==> {
                &&& final(channel)@.state.receivers.len() == 0
                &&& 0 <= i < old(channel)@.state.receivers.len() ==> {
                    &&& old(channel)@.state.receivers[i] matches state::RecvWaiter::Receiver { session } ==> exists|
                        waked: bool,
                    | #[trigger]
                        call_ensures(*wake, (session, Wakeup::<T>::Permit(Permit::Closed)), waked)
                    &&& old(channel)@.state.receivers[i] matches state::RecvWaiter::Selector { selector } ==> exists|
                        waked: bool,
                    | #[trigger]
                        call_ensures(
                            *wake,
                            (
                                selector.spec_waker(),
                                Wakeup::<T>::Select { index: selector.spec_index(), permit: Permit::Closed },
                            ),
                            waked,
                        )
                }
            }
            &&& old(channel)@.state.values.len() + old(channel)@.state.send_permits > 0 ==> final(channel)@.state.receivers == old(channel)@.state.receivers
        },
{
    if final(channel)@.state.closed && !old(channel)@.state.closed {
        let before = old(channel)@.state;
        if 0 <= i < before.senders.len() {
            assert(before.senders[i].told_closed(*wake));
        }
        if before.recvable_len() == 0 && 0 <= i < before.receivers.len() {
            assert(state::told(
                *wake,
                before.receivers[i].spec_waker(),
                before.receivers[i].spec_wakeup::<T>(Permit::Closed),
            ));
        }
    }
}

/// A channel stays open while a receiver is left, as it does while a sender is.
pub proof fn law_last_receiver_closes<T, W, F: Fn(W, Wakeup<T>) -> bool>(
    receiver: &mut Receiver,
    channel: &mut Channel<T, W>,
    wake: &F,
    i: int,
)
    requires
        call_ensures(Receiver::terminate::<T, W, F>, (receiver, channel, wake), ()),
        old(channel)@.inv(),
    ensures
        !final(receiver).attached(),
        !old(receiver).attached() ==> final(channel)@ == old(channel)@,
        old(receiver).attached() && old(channel)@.receivers > 0 ==> {
            &&& final(channel)@.receivers + 1 == old(channel)@.receivers
            &&& final(channel)@.state.closed == (old(channel)@.state.closed
                || final(channel)@.receivers == 0)
        },
        final(channel)@.senders == old(channel)@.senders,
        !final(channel)@.state.closed ==> final(channel)@.state
            == old(channel)@.state,
        final(channel)@.state.closed && !old(channel)@.state.closed ==> {
            &&& final(channel)@.state.senders.len() == 0
            &&& 0 <= i < old(channel)@.state.senders.len() ==> {
                &&& old(channel)@.state.senders[i] matches Waiter::Task { waker, value } ==> exists|waked: bool|
                    #[trigger]
                    call_ensures(*wake, (waker, Wakeup::Sent(Err(SendError::Closed(value)))), waked)
                &&& old(channel)@.state.senders[i] matches Waiter::Thread { waker, value } ==> exists|waked: bool|
                    #[trigger]
                    call_ensures(*wake, (waker, Wakeup::Sent(Err(SendError::Closed(value)))), waked)
                &&& old(channel)@.state.senders[i] matches Waiter::Selector { selector } ==> exists|waked: bool|
                    #[trigger]
                    call_ensures(
                        *wake,
                        (
                            selector.spec_waker(),
                            Wakeup::Select { index: selector.spec_index(), permit: Permit::Closed },
                        ),
                        waked,
                    )
            }
            &&& final(channel)@.state.values == old(channel)@.state.values
            &&& final(channel)@.state.send_permits == old(channel)@.state.send_permits
            &&& final(channel)@.state.recv_permits == old(channel)@.state.recv_permits
            &&& final(channel)@.state.bound == old(channel)@.state.bound
            &&& old(channel)@.state.values.len() + old(channel)@.state.send_permits == 0 ==> {
                &&& final(channel)@.state.receivers.len() == 0
                &&& 0 <= i < old(channel)@.state.receivers.len() ==> {
                    &&& old(channel)@.state.receivers[i] matches state::RecvWaiter::Receiver { session } ==> exists|
                        waked: bool,
                    | #[trigger]
                        call_ensures(*wake, (session, Wakeup::<T>::Permit(Permit::Closed)), waked)
                    &&& old(channel)@.state.receivers[i] matches state::RecvWaiter::Selector { selector } ==> exists|
                        waked: bool,
                    | #[trigger]
                        call_ensures(
                            *wake,
                            (
                                selector.spec_waker(),
                                Wakeup::<T>::Select { index: selector.spec_index(), permit: Permit::Closed },
                            ),
                            waked,
                        )
                }
            }
            &&& old(channel)@.state.values.len() + old(channel)@.state.send_permits > 0 ==> final(channel)@.state.receivers == old(channel)@.state.receivers
        },
{
    if final(channel)@.state.closed && !old(channel)@.state.closed {
        let before = old(channel)@.state;
        if 0 <= i < before.senders.len() {
            assert(before.senders[i].told_closed(*wake));
        }
        if before.recvable_len() == 0 && 0 <= i < before.receivers.len() {
            assert(state::told(
                *wake,
                before.receivers[i].spec_waker(),
                before.receivers[i].spec_wakeup::<T>(Permit::Closed),
            ));
        }
    }
}

/// A receiver that closes the channel keeps the buffered values, which can be received. Everyone who
/// waits to send gets back exactly the value that it wanted to send, with an error.
pub proof fn law_close_gives_values_back<T, W, F: Fn(W, Wakeup<T>) -> bool>(
    receiver: &mut Receiver,
    channel: &mut Channel<T, W>,
    wake: &F,
    i: int,
)
    requires
        call_ensures(Receiver::close::<T, W, F>, (receiver, channel, wake), ()),
        old(receiver).attached(),
        old(channel)@.inv(),
    ensures
        final(receiver).attached(),
        final(channel)@.state.closed,
        final(channel)@.senders == old(channel)@.senders,
        final(channel)@.receivers == old(channel)@.receivers,
        final(channel)@.state.senders.len() == 0,
        final(channel)@.state.values == old(channel)@.state.values,
        final(channel)@.state.send_permits == old(channel)@.state.send_permits,
        final(channel)@.state.recv_permits == old(channel)@.state.recv_permits,
        0 <= i < old(channel)@.state.senders.len() ==> {
            &&& old(channel)@.state.senders[i] matches Waiter::Task { waker, value } ==> exists|waked: bool|
                #[trigger]
                call_ensures(*wake, (waker, Wakeup::Sent(Err(SendError::Closed(value)))), waked)
            &&& old(channel)@.state.senders[i] matches Waiter::Thread { waker, value } ==> exists|waked: bool|
                #[trigger]
                call_ensures(*wake, (waker, Wakeup::Sent(Err(SendError::Closed(value)))), waked)
            &&& old(channel)@.state.senders[i] matches Waiter::Selector { selector } ==> exists|waked: bool|
                #[trigger]
                call_ensures(
                    *wake,
                    (
                        selector.spec_waker(),
                        Wakeup::Select { index: selector.spec_index(), permit: Permit::Closed },
                    ),
                    waked,
                )
        },
        old(channel)@.state.values.len() + old(channel)@.state.send_permits == 0 ==> {
            &&& final(channel)@.state.receivers.len() == 0
            &&& 0 <= i < old(channel)@.state.receivers.len() ==> {
                &&& old(channel)@.state.receivers[i] matches state::RecvWaiter::Receiver { session } ==> exists|
                    waked: bool,
                | #[trigger]
                    call_ensures(*wake, (session, Wakeup::<T>::Permit(Permit::Closed)), waked)
                &&& old(channel)@.state.receivers[i] matches state::RecvWaiter::Selector { selector } ==> exists|
                    waked: bool,
                | #[trigger]
                    call_ensures(
                        *wake,
                        (
                            selector.spec_waker(),
                            Wakeup::<T>::Select { index: selector.spec_index(), permit: Permit::Closed },
                        ),
                        waked,
                    )
            }
        },
        old(channel)@.state.values.len() + old(channel)@.state.send_permits > 0
            ==> final(channel)@.state.receivers == old(channel)@.state.receivers,
{
    let before = old(channel)@.state;
    if 0 <= i < before.senders.len() {
        assert(before.senders[i].told_closed(*wake));
    }
    if before.recvable_len() == 0 && 0 <= i < before.receivers.len() {
        assert(state::told(
            *wake,
            before.receivers[i].spec_waker(),
            before.receivers[i].spec_wakeup::<T>(Permit::Closed),
        ));
    }
}

proof fn lemma_room<T, W, F: Fn(W, Wakeup<T>) -> bool>(
    popped: StateView<T, W>,
    after: StateView<T, W>,
    n: int,
    wake: F,
    i: int,
)
    requires
        popped.offered_room(after, n, wake),
        popped.recvable_len() < popped.bound,
    ensures
        ({
            let gone = popped.senders.len() - after.senders.len();
            &&& 0 <= gone <= popped.senders.len()
            &&& after.senders == popped.senders.skip(gone)
            &&& popped.senders.len() > 0 ==> gone > 0
            &&& after.recvable_len() <= popped.bound
            &&& after.values == popped.values || {
                &&& gone > 0
                &&& after.send_permits == popped.send_permits
                &&& after.values.len() == popped.values.len() + 1
                &&& after.values.drop_last() == popped.values
            }
            &&& 0 <= i < gone ==> {
                ||| popped.senders[i].refused(wake)
                ||| i == gone - 1 && popped.senders[i].accepted(wake) && after.values
                    == popped.after_accept(popped.senders[i]).values && after.send_permits
                    == popped.after_accept(popped.senders[i]).send_permits
            }
        }),
{
    if n < popped.senders.len() {
        assert(popped.senders[n].accepted(wake));
        assert(popped.after_accept(popped.senders[n]).values.len() > 0 ==> true);
        if after.values != popped.values {
            assert(after.values.drop_last() =~= popped.values);
        }
    } else {
        assert(popped.senders.skip(popped.senders.len() as int) =~= Seq::empty());
    }
    if 0 <= i < n {
        assert(popped.senders[i].refused(wake));
    }
}

/// A receive gives the first value if there is one that no permit is reserved for. It gives nothing if
/// the receiver is drained, or if the channel is closed and no value will come, and the receiver is
/// drained then. It waits otherwise. When a value was taken, room is offered to those who wait to
/// send, in turn: whoever is told that its value was sent, and takes that, has its value go in last.
pub proof fn law_recv<T, W, F: Fn(W, Wakeup<T>) -> bool>(
    receiver: &mut Receiver,
    channel: &mut Channel<T, W>,
    receiving: Receiving<T>,
    wake: &F,
    i: int,
)
    requires
        call_ensures(Receiver::recv::<T, W, F>, (receiver, channel, wake), receiving),
        old(channel)@.receivers > 0,
        old(channel)@.inv(),
    ensures
        (receiving matches Receiving::Done(Some(_))) <==> old(receiver).attached()
            && old(channel)@.state.values.len() > old(channel)@.state.recv_permits,
        receiving matches Receiving::Done(Some(value)) ==> value == old(channel)@.state.values[0],
        receiving == Receiving::<T>::Done(None) <==> !old(receiver).attached() || {
            &&& old(channel)@.state.closed
            &&& old(channel)@.state.values.len() == 0
            &&& old(channel)@.state.send_permits == 0
        },
        receiving == Receiving::<T>::Done(None) ==> !final(receiver).attached()
            && final(channel)@.state == old(channel)@.state,
        receiving is Wait ==> final(channel)@ == old(channel)@,
        !(receiving == Receiving::<T>::Done(None)) ==> final(receiver).attached()
            && final(channel)@.receivers == old(channel)@.receivers,
        receiving matches Receiving::Done(Some(_)) ==> final(channel)@.state.recv_permits
            == old(channel)@.state.recv_permits,
        final(channel)@.senders == old(channel)@.senders,
        final(channel)@.state.bound == old(channel)@.state.bound,
        final(channel)@.state.closed == old(channel)@.state.closed,
        ({
            let before = old(channel)@.state;
            let after = final(channel)@.state;
            let gone = before.senders.len() - after.senders.len();
            (receiving matches Receiving::Done(Some(_))) ==> {
                &&& 0 <= gone <= before.senders.len()
                &&& after.senders == before.senders.skip(gone)
                &&& before.senders.len() > 0 ==> gone > 0
                &&& after.values.len() + after.send_permits <= before.bound
                &&& after.values == before.values.skip(1) || {
                    &&& gone > 0
                    &&& after.send_permits == before.send_permits
                    &&& after.values.len() == before.values.len()
                    &&& after.values.drop_last() == before.values.skip(1)
                }
                &&& 0 <= i < gone ==> {
                    &&& before.senders[i] matches Waiter::Task { waker, value } ==> {
                        ||| call_ensures(*wake, (waker, Wakeup::Sent(Ok(()))), false)
                        ||| i == gone - 1 && call_ensures(*wake, (waker, Wakeup::Sent(Ok(()))), true)
                            && after.values == before.values.skip(1).push(value)
                    }
                    &&& before.senders[i] matches Waiter::Thread { waker, value } ==> {
                        &&& i == gone - 1
                        &&& exists|waked: bool| #[trigger]
                            call_ensures(*wake, (waker, Wakeup::Sent(Ok(()))), waked)
                        &&& after.values == before.values.skip(1).push(value)
                    }
                    &&& before.senders[i] matches Waiter::Selector { selector } ==> {
                        ||| call_ensures(
                            *wake,
                            (
                                selector.spec_waker(),
                                Wakeup::Select {
                                    index: selector.spec_index(),
                                    permit: Permit::Consume,
                                },
                            ),
                            false,
                        )
                        ||| i == gone - 1 && call_ensures(
                            *wake,
                            (
                                selector.spec_waker(),
                                Wakeup::Select {
                                    index: selector.spec_index(),
                                    permit: Permit::Consume,
                                },
                            ),
                            true,
                        ) && after.send_permits == before.send_permits + 1
                    }
                }
            }
        }),
{
    let before = old(channel)@.state;
    let after = final(channel)@.state;
    if receiving matches Receiving::Done(Some(_)) {
        assert(before.values =~= seq![before.values[0]] + before.values.skip(1));
        if before.after_pop().drained() {
            assert(before.senders.skip(0) =~= before.senders);
        } else {
            let n = choose|n: int| #[trigger] before.after_pop().offered_room(after, n, *wake);
            lemma_room(before.after_pop(), after, n, *wake, i);
        }
    }
}

/// To try to receive is to receive, but that it says so in place of waiting.
pub proof fn law_try_recv<T, W, F: Fn(W, Wakeup<T>) -> bool>(
    receiver: &mut Receiver,
    channel: &mut Channel<T, W>,
    result: Result<T, TryRecvError>,
    wake: &F,
    i: int,
)
    requires
        call_ensures(Receiver::try_recv::<T, W, F>, (receiver, channel, wake), result),
        old(channel)@.receivers > 0,
        old(channel)@.inv(),
    ensures
        result is Ok <==> old(receiver).attached() && old(channel)@.state.values.len()
            > old(channel)@.state.recv_permits,
        result matches Ok(value) ==> value == old(channel)@.state.values[0],
        result == Err::<T, _>(TryRecvError::Closed) <==> !old(receiver).attached() || {
            &&& old(channel)@.state.closed
            &&& old(channel)@.state.values.len() == 0
            &&& old(channel)@.state.send_permits == 0
        },
        result == Err::<T, _>(TryRecvError::Closed) ==> !final(receiver).attached()
            && final(channel)@.state == old(channel)@.state,
        result == Err::<T, _>(TryRecvError::Empty) ==> final(channel)@ == old(channel)@,
        result != Err::<T, _>(TryRecvError::Closed) ==> final(receiver).attached()
            && final(channel)@.receivers == old(channel)@.receivers,
        result is Ok ==> final(channel)@.state.recv_permits == old(channel)@.state.recv_permits,
        final(channel)@.senders == old(channel)@.senders,
        final(channel)@.state.bound == old(channel)@.state.bound,
        final(channel)@.state.closed == old(channel)@.state.closed,
        ({
            let before = old(channel)@.state;
            let after = final(channel)@.state;
            let gone = before.senders.len() - after.senders.len();
            result is Ok ==> {
                &&& 0 <= gone <= before.senders.len()
                &&& after.senders == before.senders.skip(gone)
                &&& before.senders.len() > 0 ==> gone > 0
                &&& after.values.len() + after.send_permits <= before.bound
                &&& after.values == before.values.skip(1) || {
                    &&& gone > 0
                    &&& after.send_permits == before.send_permits
                    &&& after.values.len() == before.values.len()
                    &&& after.values.drop_last() == before.values.skip(1)
                }
                &&& 0 <= i < gone ==> {
                    &&& before.senders[i] matches Waiter::Task { waker, value } ==> {
                        ||| call_ensures(*wake, (waker, Wakeup::Sent(Ok(()))), false)
                        ||| i == gone - 1 && call_ensures(*wake, (waker, Wakeup::Sent(Ok(()))), true)
                            && after.values == before.values.skip(1).push(value)
                    }
                    &&& before.senders[i] matches Waiter::Thread { waker, value } ==> {
                        &&& i == gone - 1
                        &&& exists|waked: bool| #[trigger]
                            call_ensures(*wake, (waker, Wakeup::Sent(Ok(()))), waked)
                        &&& after.values == before.values.skip(1).push(value)
                    }
                    &&& before.senders[i] matches Waiter::Selector { selector } ==> {
                        ||| call_ensures(
                            *wake,
                            (
                                selector.spec_waker(),
                                Wakeup::Select {
                                    index: selector.spec_index(),
                                    permit: Permit::Consume,
                                },
                            ),
                            false,
                        )
                        ||| i == gone - 1 && call_ensures(
                            *wake,
                            (
                                selector.spec_waker(),
                                Wakeup::Select {
                                    index: selector.spec_index(),
                                    permit: Permit::Consume,
                                },
                            ),
                            true,
                        ) && after.send_permits == before.send_permits + 1
                    }
                }
            }
        }),
{
    let before = old(channel)@.state;
    let after = final(channel)@.state;
    if result is Ok {
        assert(before.values =~= seq![before.values[0]] + before.values.skip(1));
        if before.after_pop().drained() {
            assert(before.senders.skip(0) =~= before.senders);
        } else {
            let n = choose|n: int| #[trigger] before.after_pop().offered_room(after, n, *wake);
            lemma_room(before.after_pop(), after, n, *wake, i);
        }
    }
}

/// Who waited and was woken with a permit gets the first value, which its permit was for or which is
/// left for it. It gets nothing only if it was told so or there is none left, and is drained then.
/// Room is offered to those who wait to send, as in any receive.
pub proof fn law_received<T, W, F: Fn(W, Wakeup<T>) -> bool>(
    receiver: &mut Receiver,
    channel: &mut Channel<T, W>,
    permit: Permit,
    value: Option<T>,
    wake: &F,
    i: int,
)
    requires
        call_ensures(Receiver::received::<T, W, F>, (receiver, channel, permit, wake), value),
        old(receiver).attached(),
        permit == Permit::Consume ==> old(channel)@.state.recv_permits > 0,
        old(channel)@.receivers > 0,
        old(channel)@.inv(),
    ensures
        value is Some <==> permit == Permit::Consume && old(channel)@.state.values.len() > 0,
        value matches Some(value) ==> value == old(channel)@.state.values[0],
        value is Some ==> final(channel)@.state.recv_permits + 1
            == old(channel)@.state.recv_permits,
        value is Some ==> final(receiver).attached() && final(channel)@.receivers
            == old(channel)@.receivers,
        value is None ==> !final(receiver).attached() && final(channel)@.receivers + 1
            == old(channel)@.receivers && final(channel)@.state.values
            == old(channel)@.state.values,
        ({
            let before = old(channel)@.state;
            let after = final(channel)@.state;
            let gone = before.senders.len() - after.senders.len();
            value is Some ==> {
                &&& 0 <= gone <= before.senders.len()
                &&& after.senders == before.senders.skip(gone)
                &&& before.senders.len() > 0 ==> gone > 0
                &&& after.values.len() + after.send_permits <= before.bound
                &&& after.values == before.values.skip(1) || {
                    &&& gone > 0
                    &&& after.send_permits == before.send_permits
                    &&& after.values.len() == before.values.len()
                    &&& after.values.drop_last() == before.values.skip(1)
                }
                &&& 0 <= i < gone ==> {
                    &&& before.senders[i] matches Waiter::Task { waker, value } ==> {
                        ||| call_ensures(*wake, (waker, Wakeup::Sent(Ok(()))), false)
                        ||| i == gone - 1 && call_ensures(*wake, (waker, Wakeup::Sent(Ok(()))), true)
                            && after.values == before.values.skip(1).push(value)
                    }
                    &&& before.senders[i] matches Waiter::Thread { waker, value } ==> {
                        &&& i == gone - 1
                        &&& exists|waked: bool| #[trigger]
                            call_ensures(*wake, (waker, Wakeup::Sent(Ok(()))), waked)
                        &&& after.values == before.values.skip(1).push(value)
                    }
                    &&& before.senders[i] matches Waiter::Selector { selector } ==> {
                        ||| call_ensures(
                            *wake,
                            (
                                selector.spec_waker(),
                                Wakeup::Select {
                                    index: selector.spec_index(),
                                    permit: Permit::Consume,
                                },
                            ),
                            false,
                        )
                        ||| i == gone - 1 && call_ensures(
                            *wake,
                            (
                                selector.spec_waker(),
                                Wakeup::Select {
                                    index: selector.spec_index(),
                                    permit: Permit::Consume,
                                },
                            ),
                            true,
                        ) && after.send_permits == before.send_permits + 1
                    }
                }
            }
        }),
{
    let before = old(channel)@.state;
    let after = final(channel)@.state;
    if value is Some {
        assert(before.values =~= seq![before.values[0]] + before.values.skip(1));
        if !before.closed && before.full() {
            let n = choose|n: int| #[trigger] before.after_consume().offered_room(after, n, *wake);
            lemma_room(before.after_consume(), after, n, *wake, i);
        } else {
            assert(before.senders.skip(0) =~= before.senders);
        }
    }
}

/// A selected receiver uses its permit as one that waited does.
pub proof fn law_consume_recv_permit<T, W, F: Fn(W, Wakeup<T>) -> bool>(
    receiver: &mut Receiver,
    channel: &mut Channel<T, W>,
    permit: select::Permit,
    value: Option<T>,
    wake: &F,
    i: int,
)
    requires
        call_ensures(Receiver::consume_permit::<T, W, F>, (receiver, channel, permit, wake), value),
        permit@.primitive == Permit::Consume.spec_primitive() && old(receiver).attached()
            ==> old(channel)@.state.recv_permits > 0,
        permit@.primitive < 2,
        old(channel)@.inv(),
    ensures
        value is Some <==> permit@.primitive == Permit::Consume.spec_primitive() && old(receiver).attached() && old(channel)@.state.values.len() > 0,
        value matches Some(value) ==> value == old(channel)@.state.values[0],
        value is Some ==> final(channel)@.state.recv_permits + 1
            == old(channel)@.state.recv_permits,
        final(receiver).attached() == value is Some,
        value is None ==> final(channel)@.state.values == old(channel)@.state.values,
        ({
            let before = old(channel)@.state;
            let after = final(channel)@.state;
            let gone = before.senders.len() - after.senders.len();
            value is Some ==> {
                &&& 0 <= gone <= before.senders.len()
                &&& after.senders == before.senders.skip(gone)
                &&& before.senders.len() > 0 ==> gone > 0
                &&& after.values.len() + after.send_permits <= before.bound
                &&& after.values == before.values.skip(1) || {
                    &&& gone > 0
                    &&& after.send_permits == before.send_permits
                    &&& after.values.len() == before.values.len()
                    &&& after.values.drop_last() == before.values.skip(1)
                }
                &&& 0 <= i < gone ==> {
                    &&& before.senders[i] matches Waiter::Task { waker, value } ==> {
                        ||| call_ensures(*wake, (waker, Wakeup::Sent(Ok(()))), false)
                        ||| i == gone - 1 && call_ensures(*wake, (waker, Wakeup::Sent(Ok(()))), true)
                            && after.values == before.values.skip(1).push(value)
                    }
                    &&& before.senders[i] matches Waiter::Thread { waker, value } ==> {
                        &&& i == gone - 1
                        &&& exists|waked: bool| #[trigger]
                            call_ensures(*wake, (waker, Wakeup::Sent(Ok(()))), waked)
                        &&& after.values == before.values.skip(1).push(value)
                    }
                    &&& before.senders[i] matches Waiter::Selector { selector } ==> {
                        ||| call_ensures(
                            *wake,
                            (
                                selector.spec_waker(),
                                Wakeup::Select {
                                    index: selector.spec_index(),
                                    permit: Permit::Consume,
                                },
                            ),
                            false,
                        )
                        ||| i == gone - 1 && call_ensures(
                            *wake,
                            (
                                selector.spec_waker(),
                                Wakeup::Select {
                                    index: selector.spec_index(),
                                    permit: Permit::Consume,
                                },
                            ),
                            true,
                        ) && after.send_permits == before.send_permits + 1
                    }
                }
            }
        }),
{
    let before = old(channel)@.state;
    let after = final(channel)@.state;
    if value is Some {
        assert(before.values =~= seq![before.values[0]] + before.values.skip(1));
        if !before.closed && before.full() {
            let n = choose|n: int| #[trigger] before.after_consume().offered_room(after, n, *wake);
            lemma_room(before.after_consume(), after, n, *wake, i);
        } else {
            assert(before.senders.skip(0) =~= before.senders);
        }
    }
}

proof fn lemma_value<T, W, F: Fn(W, Wakeup<T>) -> bool>(
    pushed: StateView<T, W>,
    after: StateView<T, W>,
    n: int,
    wake: F,
    i: int,
)
    requires
        pushed.offered_value(after, n, wake),
    ensures
        ({
            let gone = pushed.receivers.len() - after.receivers.len();
            &&& 0 <= gone <= pushed.receivers.len()
            &&& after.receivers == pushed.receivers.skip(gone)
            &&& pushed.receivers.len() > 0 ==> gone > 0
            &&& after.recv_permits == pushed.recv_permits || after.recv_permits
                == pushed.recv_permits + 1 && gone > 0
            &&& after.receivers.len() > 0 ==> after.recv_permits == pushed.recv_permits + 1
            &&& 0 <= i < gone ==> call_ensures(
                wake,
                (
                    pushed.receivers[i].spec_waker(),
                    pushed.receivers[i].spec_wakeup::<T>(Permit::Consume),
                ),
                i == gone - 1 && after.recv_permits == pushed.recv_permits + 1,
            )
        }),
{
    if n == pushed.receivers.len() {
        assert(pushed.receivers.skip(n) =~= Seq::empty());
    }
    if 0 <= i < n {
        assert(call_ensures(
            wake,
            (
                pushed.receivers[i].spec_waker(),
                pushed.receivers[i].spec_wakeup::<T>(Permit::Consume),
            ),
            false,
        ));
    }
}

/// A send succeeds if and only if the sender is not closed, the channel is open, and there is room
/// that no permit is reserved for. It waits if and only if all that is missing is room. Otherwise the
/// value is given back, and the sender is closed. A value that was sent is the last one, and is
/// offered to those who wait to receive, in turn: one takes a permit for it, or nobody waits on.
pub proof fn law_send<T, W, F: Fn(W, Wakeup<T>) -> bool>(
    sender: &mut Sender,
    channel: &mut Channel<T, W>,
    value: T,
    sending: Sending<T>,
    wake: &F,
    i: int,
)
    requires
        call_ensures(Sender::send::<T, W, F>, (sender, channel, value, wake), sending),
        old(channel)@.senders > 0,
        old(channel)@.inv(),
    ensures
        sending == Sending::<T>::Done(Ok(())) <==> {
            &&& old(sender).attached()
            &&& !old(channel)@.state.closed
            &&& old(channel)@.state.values.len() + old(channel)@.state.send_permits
                != old(channel)@.state.bound
        },
        sending is Wait <==> {
            &&& old(sender).attached()
            &&& !old(channel)@.state.closed
            &&& old(channel)@.state.values.len() + old(channel)@.state.send_permits
                == old(channel)@.state.bound
        },
        sending matches Sending::Wait { value: back } ==> back == value && final(channel)@
            == old(channel)@,
        sending matches Sending::Done(Err(err)) ==> err == SendError::Closed(value) && !final(sender).attached() && final(channel)@.state == old(channel)@.state && (old(sender).attached()
            ==> final(channel)@.senders + 1 == old(channel)@.senders),
        !(sending matches Sending::Done(Err(_))) ==> final(sender).attached()
            && final(channel)@.senders == old(channel)@.senders,
        final(channel)@.state.values == if sending == Sending::<T>::Done(Ok(())) {
            old(channel)@.state.values.push(value)
        } else {
            old(channel)@.state.values
        },
        final(channel)@.state.send_permits == old(channel)@.state.send_permits,
        final(channel)@.receivers == old(channel)@.receivers,
        sending == Sending::<T>::Done(Ok(())) ==> {
            let before = old(channel)@.state;
            let after = final(channel)@.state;
            let gone = before.receivers.len() - after.receivers.len();
            &&& 0 <= gone <= before.receivers.len()
            &&& after.receivers == before.receivers.skip(gone)
            &&& before.receivers.len() > 0 ==> gone > 0
            &&& after.recv_permits == before.recv_permits || after.recv_permits
                == before.recv_permits + 1 && gone > 0
            &&& after.receivers.len() > 0 ==> after.recv_permits == before.recv_permits + 1
            &&& after.senders == before.senders
            &&& after.closed == before.closed
            &&& after.bound == before.bound
            &&& 0 <= i < gone ==> {
                let took = i == gone - 1 && after.recv_permits == before.recv_permits + 1;
                &&& before.receivers[i] matches state::RecvWaiter::Receiver { session }
                    ==> call_ensures(
                    *wake,
                    (session, Wakeup::<T>::Permit(Permit::Consume)),
                    took,
                )
                &&& before.receivers[i] matches state::RecvWaiter::Selector { selector }
                    ==> call_ensures(
                    *wake,
                    (
                        selector.spec_waker(),
                        Wakeup::<T>::Select {
                            index: selector.spec_index(),
                            permit: Permit::Consume,
                        },
                    ),
                    took,
                )
            }
        },
{
    if sending == Sending::<T>::Done(Ok(())) {
        let pushed = old(channel)@.state.after_push(value);
        let after = final(channel)@.state;
        let n = choose|n: int| #[trigger] pushed.offered_value(after, n, *wake);
        lemma_value(pushed, after, n, *wake, i);
    }
}

/// To try to send is to send, but for a channel without room, where it gives the value back in place
/// of waiting.
pub proof fn law_try_send<T, W, F: Fn(W, Wakeup<T>) -> bool>(
    sender: &mut Sender,
    channel: &mut Channel<T, W>,
    value: T,
    result: Result<(), TrySendError<T>>,
    wake: &F,
    i: int,
)
    requires
        call_ensures(Sender::try_send::<T, W, F>, (sender, channel, value, wake), result),
        old(channel)@.senders > 0,
        old(channel)@.inv(),
    ensures
        result is Ok <==> {
            &&& old(sender).attached()
            &&& !old(channel)@.state.closed
            &&& old(channel)@.state.values.len() + old(channel)@.state.send_permits
                != old(channel)@.state.bound
        },
        result matches Err(TrySendError::Full(back)) ==> {
            &&& back == value
            &&& old(sender).attached()
            &&& !old(channel)@.state.closed
            &&& old(channel)@.state.values.len() + old(channel)@.state.send_permits
                == old(channel)@.state.bound
            &&& final(sender).attached()
            &&& final(channel)@ == old(channel)@
        },
        result matches Err(TrySendError::Closed(back)) ==> {
            &&& back == value
            &&& !old(sender).attached() || old(channel)@.state.closed
            &&& !final(sender).attached()
            &&& final(channel)@.state == old(channel)@.state
        },
        result is Ok ==> {
            &&& final(sender).attached()
            &&& final(channel)@.state.values == old(channel)@.state.values.push(value)
            &&& final(channel)@.senders == old(channel)@.senders
        },
        final(channel)@.state.send_permits == old(channel)@.state.send_permits,
        result is Ok ==> {
            let before = old(channel)@.state;
            let after = final(channel)@.state;
            let gone = before.receivers.len() - after.receivers.len();
            &&& 0 <= gone <= before.receivers.len()
            &&& after.receivers == before.receivers.skip(gone)
            &&& before.receivers.len() > 0 ==> gone > 0
            &&& after.recv_permits == before.recv_permits || after.recv_permits
                == before.recv_permits + 1 && gone > 0
            &&& after.receivers.len() > 0 ==> after.recv_permits == before.recv_permits + 1
            &&& after.senders == before.senders
            &&& after.closed == before.closed
            &&& after.bound == before.bound
            &&& 0 <= i < gone ==> {
                let took = i == gone - 1 && after.recv_permits == before.recv_permits + 1;
                &&& before.receivers[i] matches state::RecvWaiter::Receiver { session }
                    ==> call_ensures(
                    *wake,
                    (session, Wakeup::<T>::Permit(Permit::Consume)),
                    took,
                )
                &&& before.receivers[i] matches state::RecvWaiter::Selector { selector }
                    ==> call_ensures(
                    *wake,
                    (
                        selector.spec_waker(),
                        Wakeup::<T>::Select {
                            index: selector.spec_index(),
                            permit: Permit::Consume,
                        },
                    ),
                    took,
                )
            }
        },
{
    if result is Ok {
        let pushed = old(channel)@.state.after_push(value);
        let after = final(channel)@.state;
        let n = choose|n: int| #[trigger] pushed.offered_value(after, n, *wake);
        lemma_value(pushed, after, n, *wake, i);
    }
}

/// A permit to send holds what it promises, even if the channel has been closed: the value goes in
/// last, and is offered to those who wait to receive. Only who was told that the channel is closed
/// gets the value back.
pub proof fn law_consume_send_permit<T, W, F: Fn(W, Wakeup<T>) -> bool>(
    sender: &mut Sender,
    channel: &mut Channel<T, W>,
    permit: select::Permit,
    value: T,
    result: Result<(), SendError<T>>,
    wake: &F,
    i: int,
)
    requires
        call_ensures(
            Sender::consume_permit::<T, W, F>,
            (sender, channel, permit, value, wake),
            result,
        ),
        permit@.primitive < 2,
        permit@.primitive == Permit::Consume.spec_primitive() && old(sender).attached()
            ==> old(channel)@.state.send_permits > 0,
        old(channel)@.inv(),
    ensures
        result is Ok <==> permit@.primitive == Permit::Consume.spec_primitive()
            && old(sender).attached(),
        result is Ok ==> {
            &&& final(channel)@.state.values == old(channel)@.state.values.push(value)
            &&& final(channel)@.state.send_permits + 1 == old(channel)@.state.send_permits
            &&& final(sender).attached()
        },
        result matches Err(SendError::Closed(back)) ==> {
            &&& back == value
            &&& final(channel)@ == old(channel)@
            &&& !final(sender).attached()
        },
        final(channel)@.senders == old(channel)@.senders,
        final(channel)@.receivers == old(channel)@.receivers,
        result is Ok ==> {
            let before = old(channel)@.state;
            let after = final(channel)@.state;
            let gone = before.receivers.len() - after.receivers.len();
            &&& 0 <= gone <= before.receivers.len()
            &&& after.receivers == before.receivers.skip(gone)
            &&& before.receivers.len() > 0 ==> gone > 0
            &&& after.recv_permits == before.recv_permits || after.recv_permits
                == before.recv_permits + 1 && gone > 0
            &&& after.receivers.len() > 0 ==> after.recv_permits == before.recv_permits + 1
            &&& after.senders == before.senders
            &&& after.closed == before.closed
            &&& after.bound == before.bound
            &&& 0 <= i < gone ==> {
                let took = i == gone - 1 && after.recv_permits == before.recv_permits + 1;
                &&& before.receivers[i] matches state::RecvWaiter::Receiver { session }
                    ==> call_ensures(
                    *wake,
                    (session, Wakeup::<T>::Permit(Permit::Consume)),
                    took,
                )
                &&& before.receivers[i] matches state::RecvWaiter::Selector { selector }
                    ==> call_ensures(
                    *wake,
                    (
                        selector.spec_waker(),
                        Wakeup::<T>::Select {
                            index: selector.spec_index(),
                            permit: Permit::Consume,
                        },
                    ),
                    took,
                )
            }
        },
{
    if result is Ok {
        let pushed = old(channel)@.state.after_permitted_push(value);
        let after = final(channel)@.state;
        let n = choose|n: int| #[trigger] pushed.offered_value(after, n, *wake);
        lemma_value(pushed, after, n, *wake, i);
    }
}

/// What a waiting sender was woken with is what its send comes to. If that is an error the sender is
/// closed.
pub proof fn law_sent<T, W, F: Fn(W, Wakeup<T>) -> bool>(
    sender: &mut Sender,
    channel: &mut Channel<T, W>,
    result: Result<(), SendError<T>>,
    wake: &F,
    sent: Result<(), SendError<T>>,
)
    requires
        call_ensures(Sender::sent::<T, W, F>, (sender, channel, result, wake), sent),
        old(channel)@.senders > 0,
    ensures
        sent == result,
        result is Ok ==> final(sender).attached() == old(sender).attached() && final(channel)@
            == old(channel)@,
        result is Err ==> !final(sender).attached(),
        result is Err && old(sender).attached() ==> final(channel)@.senders + 1
            == old(channel)@.senders,
        final(channel)@.state.values == old(channel)@.state.values,
        final(channel)@.receivers == old(channel)@.receivers,
{
}

/// A sender gets a permit exactly when a send would succeed at once, and room is reserved for it: the
/// next send of anyone finds one place less. It is told that the channel is closed exactly when that
/// is so, and has to wait exactly when a send had to.
pub proof fn law_sender_permit<T, W>(
    sender: &Sender,
    channel: &mut Channel<T, W>,
    permit: Result<select::Permit, TrySelectError>,
)
    requires
        call_ensures(Sender::select_permit::<T, W>, (sender, channel), permit),
    ensures
        permit == Err::<select::Permit, _>(TrySelectError::Completed) <==> !sender.attached(),
        permit == Err::<select::Permit, _>(TrySelectError::WouldBlock) <==> {
            &&& sender.attached()
            &&& !old(channel)@.state.closed
            &&& old(channel)@.state.values.len() + old(channel)@.state.send_permits
                == old(channel)@.state.bound
        },
        permit is Ok ==> {
            &&& permit->Ok_0@.attendant is None
            &&& permit->Ok_0@.primitive == if old(channel)@.state.closed {
                Permit::Closed.spec_primitive()
            } else {
                Permit::Consume.spec_primitive()
            }
        },
        final(channel)@.state.send_permits == old(channel)@.state.send_permits + if permit is Ok
            && !old(channel)@.state.closed {
            1int
        } else {
            0
        },
        final(channel)@ == (ChannelView { state: (StateView {
                send_permits: final(channel)@.state.send_permits,
                ..old(channel)@.state
            }), ..old(channel)@ }),
{
}

/// A receiver gets a permit exactly when there is a value that no permit is reserved for, or values
/// are left to contend for in a closed channel to which no more come. It is told that the channel is
/// closed exactly when no value will come.
pub proof fn law_receiver_permit<T, W>(
    receiver: &Receiver,
    channel: &mut Channel<T, W>,
    permit: Result<select::Permit, TrySelectError>,
)
    requires
        call_ensures(Receiver::select_permit::<T, W>, (receiver, channel), permit),
    ensures
        permit == Err::<select::Permit, _>(TrySelectError::Completed) <==> !receiver.attached(),
        permit is Ok ==> permit->Ok_0@.attendant is None && (permit->Ok_0@.primitive
            == Permit::Consume.spec_primitive() || permit->Ok_0@.primitive
            == Permit::Closed.spec_primitive()),
        permit is Ok && permit->Ok_0@.primitive == Permit::Consume.spec_primitive() <==> {
            let state = old(channel)@.state;
            &&& receiver.attached()
            &&& {
                ||| state.values.len() > state.recv_permits
                ||| state.closed && state.send_permits == 0 && state.values.len() > 0
            }
        },
        permit is Ok && permit->Ok_0@.primitive == Permit::Closed.spec_primitive() <==> {
            let state = old(channel)@.state;
            &&& receiver.attached()
            &&& state.closed && state.send_permits == 0 && state.values.len() == 0
        },
        final(channel)@.state.recv_permits == old(channel)@.state.recv_permits + if permit is Ok
            && permit->Ok_0@.primitive == Permit::Consume.spec_primitive() {
            1int
        } else {
            0
        },
        final(channel)@ == (ChannelView { state: (StateView {
                recv_permits: final(channel)@.state.recv_permits,
                ..old(channel)@.state
            }), ..old(channel)@ }),
{
}

/// To watch is to ask for a permit, to hand it over at once if there is one, and to wait in line if
/// there is none. A permit that came too late for the selection is given back.
pub proof fn law_watch<T, W, F: Fn(W, Wakeup<T>) -> bool>(
    sender: &Sender,
    sending: &mut Channel<T, W>,
    receiver: &Receiver,
    receiving: &mut Channel<T, W>,
    selector: Selector<W>,
    wake: &F,
    permitted: (bool, bool),
    granted: (Permit, Permit),
)
    requires
        granted.0 == if old(sending)@.state.closed {
            Permit::Closed
        } else {
            Permit::Consume
        },
        granted.1 == if old(receiving)@.state.values.len() > 0 {
            Permit::Consume
        } else {
            Permit::Closed
        },
        call_ensures(
            Sender::watch_permit::<T, W, F>,
            (sender, sending, selector, wake),
            permitted.0,
        ),
        call_ensures(
            Receiver::watch_permit::<T, W, F>,
            (receiver, receiving, selector, wake),
            permitted.1,
        ),
    ensures
        permitted.0 <==> sender.attached() && (old(sending)@.state.closed
            || old(sending)@.state.values.len() + old(sending)@.state.send_permits
            != old(sending)@.state.bound),
        !permitted.0 && sender.attached() ==> final(sending)@.state == (StateView {
            senders: old(sending)@.state.senders.push(Waiter::Selector { selector }),
            ..old(sending)@.state
        }),
        permitted.0 ==> exists|applied: bool|
            {
                &&& #[trigger] call_ensures(
                    *wake,
                    (
                        selector.spec_waker(),
                        Wakeup::<T>::Select {
                            index: selector.spec_index(),
                            permit: granted.0,
                        },
                    ),
                    applied,
                )
                &&& final(sending)@.state.send_permits == old(sending)@.state.send_permits
                    + if applied && !old(sending)@.state.closed {
                    1int
                } else {
                    0
                }
            },
        permitted.0 ==> final(sending)@.state == (StateView {
            send_permits: final(sending)@.state.send_permits,
            ..old(sending)@.state
        }),
        permitted.1 <==> receiver.attached() && {
            let state = old(receiving)@.state;
            ||| state.values.len() > state.recv_permits
            ||| state.closed && state.send_permits == 0
        },
        !permitted.1 && receiver.attached() ==> final(receiving)@.state == (StateView {
            receivers: old(receiving)@.state.receivers.push(
                state::RecvWaiter::Selector { selector },
            ),
            ..old(receiving)@.state
        }),
        permitted.1 ==> exists|applied: bool|
            {
                &&& #[trigger] call_ensures(
                    *wake,
                    (
                        selector.spec_waker(),
                        Wakeup::<T>::Select {
                            index: selector.spec_index(),
                            permit: granted.1,
                        },
                    ),
                    applied,
                )
                &&& final(receiving)@.state.recv_permits == old(receiving)@.state.recv_permits
                    + if applied && old(receiving)@.state.values.len() > 0 {
                    1int
                } else {
                    0
                }
            },
        permitted.1 ==> final(receiving)@.state == (StateView {
            recv_permits: final(receiving)@.state.recv_permits,
            ..old(receiving)@.state
        }),
        !sender.attached() ==> final(sending)@ == old(sending)@,
        !receiver.attached() ==> final(receiving)@ == old(receiving)@,
{
    if permitted.0 {
        let state = old(sending)@.state;
        let applied = choose|applied: bool| #[trigger]
            state.applied(
                final(sending)@.state,
                state.send_permit().1,
                state.send_permit().0->0,
                selector,
                *wake,
                applied,
            );
        assert(state.applied(
            final(sending)@.state,
            state.send_permit().1,
            state.send_permit().0->0,
            selector,
            *wake,
            applied,
        ));
    }
    if permitted.1 {
        let state = old(receiving)@.state;
        let applied = choose|applied: bool| #[trigger]
            state.applied(
                final(receiving)@.state,
                state.recv_permit().1,
                state.recv_permit().0->0,
                selector,
                *wake,
                applied,
            );
        assert(state.applied(
            final(receiving)@.state,
            state.recv_permit().1,
            state.recv_permit().0->0,
            selector,
            *wake,
            applied,
        ));
    }
}

/// A selection that stops watching leaves no trace, if nothing else of it watches the same side.
pub proof fn law_unwatch_undoes_watch<T, W, F: Fn(W, Wakeup<T>) -> bool>(
    sender: &Sender,
    sending: &mut Channel<T, W>,
    unsending: &mut Channel<T, W>,
    receiver: &Receiver,
    receiving: &mut Channel<T, W>,
    unreceiving: &mut Channel<T, W>,
    selector: Selector<W>,
    identifier: &Identifier,
    wake: &F,
)
    requires
        call_ensures(Sender::watch_permit::<T, W, F>, (sender, sending, selector, wake), false),
        call_ensures(Sender::unwatch_permit::<T, W>, (sender, unsending, identifier), ()),
        call_ensures(
            Receiver::watch_permit::<T, W, F>,
            (receiver, receiving, selector, wake),
            false,
        ),
        call_ensures(Receiver::unwatch_permit::<T, W>, (receiver, unreceiving, identifier), ()),
        final(sending)@ == old(unsending)@,
        final(receiving)@ == old(unreceiving)@,
        selector.spec_identifier() == identifier@,
        forall|i: int|
            0 <= i < old(sending)@.state.senders.len() ==> !((
            #[trigger] old(sending)@.state.senders[i]) matches Waiter::Selector { selector }
                && selector.spec_identifier() == identifier@),
        forall|i: int|
            0 <= i < old(receiving)@.state.receivers.len() ==> !((
            #[trigger] old(receiving)@.state.receivers[i]) matches state::RecvWaiter::Selector {
                selector,
            } && selector.spec_identifier() == identifier@),
    ensures
        final(unsending)@ == old(sending)@,
        final(unreceiving)@ == old(receiving)@,
{
    if sender.attached() {
        let watching = final(sending)@.state.senders;
        let n = old(sending)@.state.senders.len() as int;
        assert(watching[n].spec_matches(identifier@));
        assert forall|i: int| 0 <= i < n implies !(#[trigger] watching[i]).spec_matches(
            identifier@,
        ) by {
            assert(watching[i] == old(sending)@.state.senders[i]);
        }
        assert(watching.remove(n) =~= old(sending)@.state.senders);
        assert(final(unsending)@.state.senders =~= old(sending)@.state.senders);
    }
    if receiver.attached() {
        let watching = final(receiving)@.state.receivers;
        let n = old(receiving)@.state.receivers.len() as int;
        assert(watching[n].spec_matches(identifier@));
        assert forall|i: int| 0 <= i < n implies !(#[trigger] watching[i]).spec_matches(
            identifier@,
        ) by {
            assert(watching[i] == old(receiving)@.state.receivers[i]);
        }
        assert(watching.remove(n) =~= old(receiving)@.state.receivers);
        assert(final(unreceiving)@.state.receivers =~= old(receiving)@.state.receivers);
    }
}

/// Another sender or receiver of an open end is one more that keeps the channel open, and nothing
/// else changes. Of a closed end there is only another closed one.
pub proof fn law_another_is_one_more<T, W>(
    sender: &Sender,
    sending: &mut Channel<T, W>,
    other: Sender,
    receiver: &Receiver,
    receiving: &mut Channel<T, W>,
    another: Receiver,
)
    requires
        call_ensures(Sender::another::<T, W>, (sender, sending), other),
        call_ensures(Receiver::another::<T, W>, (receiver, receiving), another),
    ensures
        other.attached() == sender.attached(),
        another.attached() == receiver.attached(),
        final(sending)@.senders == old(sending)@.senders + if sender.attached() {
            1int
        } else {
            0
        },
        final(receiving)@.receivers == old(receiving)@.receivers + if receiver.attached() {
            1int
        } else {
            0
        },
        final(sending)@ == (ChannelView {
            senders: final(sending)@.senders,
            ..old(sending)@
        }),
        final(receiving)@ == (ChannelView {
            receivers: final(receiving)@.receivers,
            ..old(receiving)@
        }),
{
}

/// A new channel is open and empty, with one sender and one receiver, and has the bound that was
/// asked for, or none but that of memory.
pub proof fn law_new_channel<T, W>(
    bound: usize,
    bounded_channel: (Channel<T, W>, Sender, Receiver),
    unbounded_channel: (Channel<T, W>, Sender, Receiver),
)
    requires
        call_ensures(bounded::<T, W>, (bound,), bounded_channel),
        call_ensures(unbounded::<T, W>, (bound,), unbounded_channel),
    ensures
        bounded_channel.0@.state.bound == bound,
        unbounded_channel.0@.state.bound == usize::MAX,
        bounded_channel.1.attached() && bounded_channel.2.attached(),
        unbounded_channel.1.attached() && unbounded_channel.2.attached(),
        !bounded_channel.0@.state.closed && !unbounded_channel.0@.state.closed,
        bounded_channel.0@.state.values.len() == 0,
        unbounded_channel.0@.state.values.len() == 0,
        bounded_channel.0@.senders == 1 && bounded_channel.0@.receivers == 1,
        unbounded_channel.0@.senders == 1 && unbounded_channel.0@.receivers == 1,
        bounded_channel.0@.state.send_permits == 0 && bounded_channel.0@.state.recv_permits == 0,
        unbounded_channel.0@.state.send_permits == 0,
        unbounded_channel.0@.state.recv_permits == 0,
        bounded_channel.0@.state.senders.len() == 0,
        bounded_channel.0@.state.receivers.len() == 0,
        unbounded_channel.0@.state.senders.len() == 0,
        unbounded_channel.0@.state.receivers.len() == 0,
{
}

/// Who has to wait gets in line behind those who wait already.
pub proof fn law_waits_in_line<T, W>(
    sending: &mut Channel<T, W>,
    waiter: Waiter<T, W>,
    receiving: &mut Channel<T, W>,
    session: W,
)
    requires
        call_ensures(Channel::<T, W>::queue_sender, (sending, waiter), ()),
        call_ensures(Channel::<T, W>::queue_receiver, (receiving, session), ()),
    ensures
        final(sending)@ == (ChannelView {
            state: (StateView {
                senders: old(sending)@.state.senders.push(waiter),
                ..old(sending)@.state
            }),
            ..old(sending)@
        }),
        final(receiving)@ == (ChannelView {
            state: (StateView {
                receivers: old(receiving)@.state.receivers.push(
                    state::RecvWaiter::Receiver { session },
                ),
                ..old(receiving)@.state
            }),
            ..old(receiving)@
        }),
{
}
/// A sender says that it is closed, and a receiver that it is drained, once it has left its channel
/// and not before. Until then others may wake who watches it.
pub proof fn law_says_when_gone<T, W, F: Fn(W, Wakeup<T>) -> bool>(
    bound: usize,
    new: (Channel<T, W>, Sender, Receiver),
    sender: &mut Sender,
    sending: &mut Channel<T, W>,
    receiver: &mut Receiver,
    receiving: &mut Channel<T, W>,
    wake: &F,
    closed: (bool, bool),
    drained: (bool, bool),
    parallel: ((bool, bool), (bool, bool)),
)
    requires
        call_ensures(bounded::<T, W>, (bound,), new),
        call_ensures(Sender::is_closed, (&new.1,), closed.0),
        call_ensures(Receiver::is_drained, (&new.2,), drained.0),
        call_ensures(Sender::parallel, (&new.1,), parallel.0.0),
        call_ensures(Receiver::parallel, (&new.2,), parallel.0.1),
        *old(sender) == new.1,
        call_ensures(Sender::close::<T, W, F>, (sender, sending, wake), ()),
        call_ensures(Sender::is_closed, (final(sender),), closed.1),
        call_ensures(Sender::parallel, (final(sender),), parallel.1.0),
        *old(receiver) == new.2,
        call_ensures(Receiver::terminate::<T, W, F>, (receiver, receiving, wake), ()),
        call_ensures(Receiver::is_drained, (final(receiver),), drained.1),
        call_ensures(Receiver::parallel, (final(receiver),), parallel.1.1),
    ensures
        closed == (false, true),
        drained == (false, true),
        parallel == ((true, true), (false, false)),
{
}

/// Unwatching takes away the first sender of the selection that waits, and no other. Where none of
/// the selection waits, nothing changes.
pub proof fn law_unwatch_takes_first_sender<T, W>(
    sender: &Sender,
    channel: &mut Channel<T, W>,
    identifier: &Identifier,
    n: int,
)
    requires
        sender.attached(),
        call_ensures(Sender::unwatch_permit::<T, W>, (sender, channel, identifier), ()),
        0 <= n <= old(channel)@.state.senders.len(),
        forall|i: int|
            0 <= i < n ==> !((#[trigger] old(channel)@.state.senders[i]) matches Waiter::Selector {
                selector,
            } && selector.spec_identifier() == identifier@),
        n < old(channel)@.state.senders.len() ==> (
        old(channel)@.state.senders[n] matches Waiter::Selector { selector }
            && selector.spec_identifier() == identifier@),
    ensures
        n == old(channel)@.state.senders.len() ==> final(channel)@ == old(channel)@,
        n < old(channel)@.state.senders.len() ==> final(channel)@ == (ChannelView {
            state: (StateView {
                senders: old(channel)@.state.senders.remove(n),
                ..old(channel)@.state
            }),
            ..old(channel)@
        }),
{
    let before = old(channel)@.state;
    assert forall|i: int| 0 <= i < n implies !(#[trigger] before.senders[i]).spec_matches(
        identifier@,
    ) by {
    }
    if n < before.senders.len() {
        assert(before.senders[n].spec_matches(identifier@));
    }
}

/// Unwatching takes away the first receiver of the selection that waits, and no other. Where none of
/// the selection waits, nothing changes.
pub proof fn law_unwatch_takes_first_receiver<T, W>(
    receiver: &Receiver,
    channel: &mut Channel<T, W>,
    identifier: &Identifier,
    n: int,
)
    requires
        receiver.attached(),
        call_ensures(Receiver::unwatch_permit::<T, W>, (receiver, channel, identifier), ()),
        0 <= n <= old(channel)@.state.receivers.len(),
        forall|i: int|
            0 <= i < n ==> !((#[trigger] old(channel)@.state.receivers[i]) matches state::RecvWaiter::Selector {
                selector,
            } && selector.spec_identifier() == identifier@),
        n < old(channel)@.state.receivers.len() ==> (
        old(channel)@.state.receivers[n] matches state::RecvWaiter::Selector { selector }
            && selector.spec_identifier() == identifier@),
    ensures
        n == old(channel)@.state.receivers.len() ==> final(channel)@ == old(channel)@,
        n < old(channel)@.state.receivers.len() ==> final(channel)@ == (ChannelView {
            state: (StateView {
                receivers: old(channel)@.state.receivers.remove(n),
                ..old(channel)@.state
            }),
            ..old(channel)@
        }),
{
    let before = old(channel)@.state;
    assert forall|i: int| 0 <= i < n implies !(#[trigger] before.receivers[i]).spec_matches(
        identifier@,
    ) by {
    }
    if n < before.receivers.len() {
        assert(before.receivers[n].spec_matches(identifier@));
    }
}

} // verus!
