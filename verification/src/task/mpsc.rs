//! Multi-producer, single-consumer FIFO queue across tasks and threads.
//!
//! A channel is a value of its own here, to be guarded by a lock. Its operations return whom to
//! wake once they are done.

use std::collections::VecDeque;

use vstd::prelude::*;

use crate::channel::order::{Event, Held};

verus! {

/// A sender that waits for room.
pub enum Waiter<T, W> {
    Task { waker: W, value: T },
    Thread { waker: W, value: T },
}

impl<T, W> Waiter<T, W> {
    pub open spec fn spec_value(self) -> T {
        match self {
            Waiter::Task { waker: _, value } => value,
            Waiter::Thread { waker: _, value } => value,
        }
    }

    pub open spec fn spec_waker(self) -> Waker<W> {
        match self {
            Waiter::Task { waker, value: _ } => Waker::Task(waker),
            Waiter::Thread { waker, value: _ } => Waker::Thread(waker),
        }
    }

    fn split(self) -> (parts: (Waker<W>, T))
        ensures
            parts == (self.spec_waker(), self.spec_value()),
    {
        match self {
            Waiter::Task { waker, value } => (Waker::Task(waker), value),
            Waiter::Thread { waker, value } => (Waker::Thread(waker), value),
        }
    }
}

/// Whom to wake.
pub enum Waker<W> {
    Task(W),
    Thread(W),
}

/// How many values a channel may buffer.
#[derive(Debug, Clone, Copy)]
pub struct Capacity {
    min: usize,
    max: usize,
}

impl Capacity {
    /// Room to reserve from the start.
    pub closed spec fn spec_min(&self) -> usize {
        self.min
    }

    /// Most values to buffer.
    pub closed spec fn spec_max(&self) -> usize {
        self.max
    }

    /// Capacity of a channel that blocks its senders when `capacity` values are buffered.
    pub fn bounded(capacity: usize) -> (bounded: Capacity)
        requires
            capacity > 0,
        ensures
            bounded.spec_min() == capacity,
            bounded.spec_max() == capacity,
    {
        Capacity { min: capacity, max: capacity }
    }

    /// Capacity of a channel that does not block its senders.
    pub fn unbounded(initial_capacity: usize) -> (unbounded: Capacity)
        ensures
            unbounded.spec_min() == initial_capacity,
            unbounded.spec_max() == usize::MAX,
    {
        Capacity { min: initial_capacity, max: usize::MAX }
    }
}

#[verifier::ext_equal]
pub struct ChannelView<T, W> {
    pub closed: bool,
    pub sender_count: nat,
    pub bound: nat,
    pub values: Seq<T>,
    /// Who waits for room.
    pub senders: Seq<Waiter<T, W>>,
    /// Who waits for a value.
    pub receiver: Option<W>,
}

impl<T, W> ChannelView<T, W> {
    /// The bound is kept, senders wait only while an open channel is full, and the receiver waits
    /// only while an open channel is empty.
    pub open spec fn inv(self) -> bool {
        &&& 0 < self.bound
        &&& self.values.len() <= self.bound
        &&& self.senders.len() > 0 ==> !self.closed && self.full()
        &&& self.receiver is Some ==> !self.closed && self.values.len() == 0
    }

    pub open spec fn full(self) -> bool {
        self.values.len() == self.bound
    }

    pub open spec fn held(self) -> Held<T> {
        Held { values: self.values, open: !self.closed }
    }

    /// A channel with one sender that nobody has used yet.
    pub open spec fn new(bound: nat) -> Self {
        ChannelView {
            closed: false,
            sender_count: 1,
            bound,
            values: Seq::empty(),
            senders: Seq::empty(),
            receiver: None,
        }
    }

    /// The channel after closing: nobody waits.
    pub open spec fn after_close(self) -> Self {
        ChannelView { closed: true, senders: Seq::empty(), receiver: None, ..self }
    }

    /// The channel after its first value came out, and the first waiting sender's went in.
    pub open spec fn after_recv(self) -> Self {
        ChannelView {
            values: self.values.skip(1) + self.sent_by_waiter(),
            senders: if self.senders.len() > 0 {
                self.senders.skip(1)
            } else {
                self.senders
            },
            ..self
        }
    }

    /// What the first waiting sender has to send.
    pub open spec fn sent_by_waiter(self) -> Seq<T> {
        if self.senders.len() > 0 {
            seq![self.senders[0].spec_value()]
        } else {
            Seq::empty()
        }
    }

    /// The channel after `value` went in. The receiver is woken by the first value.
    pub open spec fn after_send(self, value: T) -> Self {
        ChannelView {
            values: self.values.push(value),
            receiver: if self.values.len() == 0 {
                None
            } else {
                self.receiver
            },
            ..self
        }
    }
}

/// Whom to wake after a channel was closed.
pub struct Closing<T, W> {
    /// Senders that get their values back.
    pub senders: VecDeque<Waiter<T, W>>,
    pub receiver: Option<W>,
}

/// Outcome of one attempt to receive.
pub enum RecvFlow<T, W> {
    /// Received this. A sender whose value went in has to be woken.
    Done { value: Option<T>, sender: Option<Waker<W>> },
    /// Queue a waker with [Channel::queue_receiver], and receive again once woken.
    Wait,
}

/// Outcome of a send.
pub enum SendFlow<T, W> {
    /// Sent. A receiver has to be woken.
    Done { result: Result<(), T>, receiver: Option<W> },
    /// Queue the value with a waker in [Channel::queue_sender]. What the waker is woken with is
    /// the result.
    Wait { value: T },
}

pub struct Channel<T, W> {
    closed: bool,
    sender_count: usize,
    bound: usize,
    deque: VecDeque<T>,
    senders: VecDeque<Waiter<T, W>>,
    receiver: Option<W>,
}

impl<T, W> View for Channel<T, W> {
    type V = ChannelView<T, W>;

    closed spec fn view(&self) -> ChannelView<T, W> {
        ChannelView {
            closed: self.closed,
            sender_count: self.sender_count as nat,
            bound: self.bound as nat,
            values: self.deque@,
            senders: self.senders@,
            receiver: self.receiver,
        }
    }
}

impl<T, W> Channel<T, W> {
    fn is_full(&self) -> (full: bool)
        ensures
            full == self@.full(),
    {
        self.deque.len() == self.bound
    }

    fn new(capacity: Capacity) -> (channel: Self)
        requires
            capacity.spec_max() > 0,
        ensures
            channel@ == ChannelView::<T, W>::new(capacity.spec_max() as nat),
            channel@.inv(),
    {
        Channel {
            closed: false,
            sender_count: 1,
            bound: capacity.max,
            deque: VecDeque::with_capacity(capacity.min),
            senders: VecDeque::with_capacity(5),
            receiver: None,
        }
    }

    fn close(&mut self) -> (closing: Closing<T, W>)
        requires
            old(self)@.inv(),
        ensures
            final(self)@.inv(),
            final(self)@ == old(self)@.after_close(),
            closing.senders@ == old(self)@.senders,
            closing.receiver == old(self)@.receiver,
    {
        self.closed = true;
        let mut senders: VecDeque<Waiter<T, W>> = VecDeque::new();
        core::mem::swap(&mut senders, &mut self.senders);
        let receiver = self.receiver.take();
        Closing { senders, receiver }
    }

    fn add_sender(&mut self)
        requires
            old(self)@.inv(),
            old(self)@.sender_count < usize::MAX,
        ensures
            final(self)@.inv(),
            final(self)@ == (ChannelView {
                sender_count: old(self)@.sender_count + 1,
                ..old(self)@
            }),
    {
        self.sender_count = self.sender_count + 1;
    }

    fn remove_sender(&mut self) -> (closing: Option<Closing<T, W>>)
        requires
            old(self)@.inv(),
            old(self)@.sender_count > 0,
        ensures
            final(self)@.inv(),
            ({
                let fewer = ChannelView {
                    sender_count: (old(self)@.sender_count - 1) as nat,
                    ..old(self)@
                };
                &&& closing is Some <==> old(self)@.sender_count == 1
                &&& closing is None ==> final(self)@ == fewer
                &&& closing is Some ==> {
                    &&& final(self)@ == fewer.after_close()
                    &&& closing->0.senders@ == old(self)@.senders
                    &&& closing->0.receiver == old(self)@.receiver
                }
            }),
    {
        self.sender_count = self.sender_count - 1;
        if self.sender_count == 0 {
            Some(self.close())
        } else {
            None
        }
    }

    fn recv(&mut self) -> (flow: RecvFlow<T, W>)
        requires
            old(self)@.inv(),
        ensures
            final(self)@.inv(),
            if old(self)@.values.len() > 0 {
                &&& final(self)@ == old(self)@.after_recv()
                &&& flow == RecvFlow::Done {
                    value: Some(old(self)@.values[0]),
                    sender: if old(self)@.senders.len() > 0 {
                        Some(old(self)@.senders[0].spec_waker())
                    } else {
                        None
                    },
                }
            } else {
                &&& final(self)@ == old(self)@
                &&& flow == if old(self)@.closed {
                    RecvFlow::<T, W>::Done { value: None, sender: None }
                } else {
                    RecvFlow::Wait
                }
            },
    {
        if let Some(value) = self.deque.pop_front() {
            let sender = match self.senders.pop_front() {
                Some(sender) => {
                    let (waker, value) = sender.split();
                    self.deque.push_back(value);
                    Some(waker)
                },
                None => None,
            };
            assert(self@ =~= old(self)@.after_recv());
            RecvFlow::Done { value: Some(value), sender }
        } else if self.closed {
            RecvFlow::Done { value: None, sender: None }
        } else {
            RecvFlow::Wait
        }
    }

    /// Queues the receiver, which has to wait.
    pub fn queue_receiver(&mut self, waker: W)
        requires
            old(self)@.inv(),
            !old(self)@.closed,
            old(self)@.values.len() == 0,
        ensures
            final(self)@.inv(),
            old(self)@.held().passes(Event::Rest, final(self)@.held()),
            final(self)@ == (ChannelView { receiver: Some(waker), ..old(self)@ }),
    {
        self.receiver = Some(waker);
    }

    fn send(&mut self, value: T) -> (flow: SendFlow<T, W>)
        requires
            old(self)@.inv(),
        ensures
            final(self)@.inv(),
            if old(self)@.closed {
                &&& final(self)@ == old(self)@
                &&& flow == SendFlow::<T, W>::Done { result: Err(value), receiver: None }
            } else if old(self)@.full() {
                &&& final(self)@ == old(self)@
                &&& flow == SendFlow::<T, W>::Wait { value }
            } else {
                &&& final(self)@ == old(self)@.after_send(value)
                &&& flow == SendFlow::<T, W>::Done {
                    result: Ok(()),
                    receiver: old(self)@.receiver,
                }
            },
    {
        if self.closed {
            SendFlow::Done { result: Err(value), receiver: None }
        } else if self.deque.len() == 0 {
            self.deque.push_back(value);
            let receiver = self.receiver.take();
            SendFlow::Done { result: Ok(()), receiver }
        } else if !self.is_full() {
            self.deque.push_back(value);
            SendFlow::Done { result: Ok(()), receiver: None }
        } else {
            SendFlow::Wait { value }
        }
    }

    /// Queues a sender that has to wait.
    pub fn queue_sender(&mut self, waiter: Waiter<T, W>)
        requires
            old(self)@.inv(),
            !old(self)@.closed,
            old(self)@.full(),
        ensures
            final(self)@.inv(),
            old(self)@.held().passes(Event::Rest, final(self)@.held()),
            final(self)@ == (ChannelView {
                senders: old(self)@.senders.push(waiter),
                ..old(self)@
            }),
    {
        self.senders.push_back(waiter);
    }
}

/// Sending peer of [Receiver]. Additional senders could be constructed by [Sender::another].
pub struct Sender {
    marker: (),
}

impl Sender {
    /// Sends a value to receiving peer.
    ///
    /// This operation could block if channel is full.
    pub fn send<T, W>(&mut self, channel: &mut Channel<T, W>, value: T) -> (flow: SendFlow<T, W>)
        requires
            old(channel)@.inv(),
        ensures
            final(channel)@.inv(),
            old(channel)@.held().passes(
                if flow matches SendFlow::Done { result: Ok(_), receiver: _ } {
                    Event::Sent(value)
                } else {
                    Event::Rest
                },
                final(channel)@.held(),
            ),
            if old(channel)@.closed {
                &&& final(channel)@ == old(channel)@
                &&& flow == SendFlow::<T, W>::Done { result: Err(value), receiver: None }
            } else if old(channel)@.full() {
                &&& final(channel)@ == old(channel)@
                &&& flow == SendFlow::<T, W>::Wait { value }
            } else {
                &&& final(channel)@ == old(channel)@.after_send(value)
                &&& flow == SendFlow::<T, W>::Done {
                    result: Ok(()),
                    receiver: old(channel)@.receiver,
                }
            },
    {
        channel.send(value)
    }

    /// Constructs another sender of the same channel.
    pub fn another<T, W>(&self, channel: &mut Channel<T, W>) -> (sender: Sender)
        requires
            old(channel)@.inv(),
            old(channel)@.sender_count < usize::MAX,
        ensures
            final(channel)@.inv(),
            old(channel)@.held().passes(Event::Rest, final(channel)@.held()),
            final(channel)@ == (ChannelView {
                sender_count: old(channel)@.sender_count + 1,
                ..old(channel)@
            }),
    {
        channel.add_sender();
        Sender { marker: () }
    }

    /// Drops this sender. The last one closes the channel: returns whom to wake then.
    pub fn close<T, W>(self, channel: &mut Channel<T, W>) -> (closing: Option<Closing<T, W>>)
        requires
            old(channel)@.inv(),
            old(channel)@.sender_count > 0,
        ensures
            final(channel)@.inv(),
            old(channel)@.held().passes(Event::Rest, final(channel)@.held()),
            ({
                let fewer = ChannelView {
                    sender_count: (old(channel)@.sender_count - 1) as nat,
                    ..old(channel)@
                };
                &&& closing is Some <==> old(channel)@.sender_count == 1
                &&& closing is None ==> final(channel)@ == fewer
                &&& closing is Some ==> {
                    &&& final(channel)@ == fewer.after_close()
                    &&& closing->0.senders@ == old(channel)@.senders
                    &&& closing->0.receiver == old(channel)@.receiver
                }
            }),
    {
        channel.remove_sender()
    }
}

/// Receiving peer of [Sender].
pub struct Receiver {
    closed: bool,
}

impl Receiver {
    /// Whether this receiver has closed the channel.
    pub closed spec fn closed(&self) -> bool {
        self.closed
    }

    /// Receives a value from [Sender]s.
    ///
    /// Gives `None` if channel is closed and has no buffered values. A channel is considered
    /// as closed if all senders have been dropped or [Receiver::close] has been called.
    pub fn recv<T, W>(&mut self, channel: &mut Channel<T, W>) -> (flow: RecvFlow<T, W>)
        requires
            old(channel)@.inv(),
        ensures
            final(self).closed() == old(self).closed(),
            final(channel)@.inv(),
            match flow {
                RecvFlow::Done { value: Some(value), sender: _ } => old(channel)@.held().gives(
                    value,
                    final(channel)@.held(),
                ),
                RecvFlow::Done { value: None, sender: _ } => old(channel)@.held().passes(
                    Event::Ended,
                    final(channel)@.held(),
                ),
                RecvFlow::Wait => old(channel)@.held().passes(
                    Event::Rest,
                    final(channel)@.held(),
                ),
            },
            if old(channel)@.values.len() > 0 {
                &&& final(channel)@ == old(channel)@.after_recv()
                &&& flow == RecvFlow::Done {
                    value: Some(old(channel)@.values[0]),
                    sender: if old(channel)@.senders.len() > 0 {
                        Some(old(channel)@.senders[0].spec_waker())
                    } else {
                        None
                    },
                }
            } else {
                &&& final(channel)@ == old(channel)@
                &&& flow == if old(channel)@.closed {
                    RecvFlow::<T, W>::Done { value: None, sender: None }
                } else {
                    RecvFlow::Wait
                }
            },
    {
        let flow = channel.recv();
        proof {
            if old(channel)@.values.len() > 0 {
                assert(old(channel)@.held().passes(
                    Event::Received {
                        value: old(channel)@.values[0],
                        entered: old(channel)@.sent_by_waiter(),
                    },
                    channel@.held(),
                ));
            }
        }
        flow
    }

    /// Constructs a sender for this channel.
    pub fn sender<T, W>(&mut self, channel: &mut Channel<T, W>) -> (sender: Sender)
        requires
            old(channel)@.inv(),
            old(channel)@.sender_count < usize::MAX,
        ensures
            final(self).closed() == old(self).closed(),
            final(channel)@.inv(),
            old(channel)@.held().passes(Event::Rest, final(channel)@.held()),
            final(channel)@ == (ChannelView {
                sender_count: old(channel)@.sender_count + 1,
                ..old(channel)@
            }),
    {
        channel.add_sender();
        Sender { marker: () }
    }

    /// Closes this channel for future sending: returns whom to wake.
    pub fn close<T, W>(&mut self, channel: &mut Channel<T, W>) -> (closing: Closing<T, W>)
        requires
            old(channel)@.inv(),
        ensures
            final(self).closed(),
            final(channel)@.inv(),
            old(channel)@.held().passes(Event::Rest, final(channel)@.held()),
            final(channel)@ == old(channel)@.after_close(),
            closing.senders@ == old(channel)@.senders,
            closing.receiver == old(channel)@.receiver,
    {
        self.closed = true;
        channel.close()
    }

    /// Drops this receiver, which closes the channel if it has not done so: returns whom to wake
    /// then.
    pub fn terminate<T, W>(self, channel: &mut Channel<T, W>) -> (closing: Option<Closing<T, W>>)
        requires
            old(channel)@.inv(),
        ensures
            final(channel)@.inv(),
            old(channel)@.held().passes(Event::Rest, final(channel)@.held()),
            closing is Some <==> !self.closed(),
            closing is None ==> final(channel)@ == old(channel)@,
            closing is Some ==> {
                &&& final(channel)@ == old(channel)@.after_close()
                &&& closing->0.senders@ == old(channel)@.senders
                &&& closing->0.receiver == old(channel)@.receiver
            },
    {
        if !self.closed {
            Some(channel.close())
        } else {
            None
        }
    }
}

fn channel<T, W>(capacity: Capacity) -> (channel: (Channel<T, W>, Sender, Receiver))
    requires
        capacity.spec_max() > 0,
    ensures
        channel.0@ == ChannelView::<T, W>::new(capacity.spec_max() as nat),
        channel.0@.inv(),
        !channel.2.closed(),
{
    (Channel::new(capacity), Sender { marker: () }, Receiver { closed: false })
}

/// Constructs a bounded FIFO channel.
pub fn bounded<T, W>(bound: usize) -> (channel: (Channel<T, W>, Sender, Receiver))
    requires
        bound > 0,
    ensures
        channel.0@ == ChannelView::<T, W>::new(bound as nat),
        channel.0@.inv(),
        !channel.2.closed(),
{
    channel(Capacity::bounded(bound))
}

/// Constructs an unbounded FIFO channel.
pub fn unbounded<T, W>(initial_capacity: usize) -> (channel: (Channel<T, W>, Sender, Receiver))
    ensures
        channel.0@ == ChannelView::<T, W>::new(usize::MAX as nat),
        channel.0@.inv(),
        !channel.2.closed(),
{
    channel(Capacity::unbounded(initial_capacity))
}

/// The receiver never waits while there is a value: whoever puts the first value in wakes it.
pub proof fn law_receiver_is_woken<T, W>(before: ChannelView<T, W>, value: T)
    requires
        before.inv(),
    ensures
        before.receiver is Some ==> before.values.len() == 0,
        before.after_send(value).receiver is None,
{
}

/// What is sent to an open channel with room goes in behind what is there, and a receiver that
/// waited is to be woken and waits no longer. With no room the value comes back to wait with, and
/// from a closed channel it comes back as an error. Nothing changes in either case.
pub proof fn law_send<T, W>(
    sender: &mut Sender,
    channel: &mut Channel<T, W>,
    value: T,
    flow: SendFlow<T, W>,
)
    requires
        old(channel)@.inv(),
        call_ensures(Sender::send::<T, W>, (sender, channel, value), flow),
    ensures
        final(channel)@.closed == old(channel)@.closed,
        final(channel)@.sender_count == old(channel)@.sender_count,
        final(channel)@.bound == old(channel)@.bound,
        final(channel)@.senders == old(channel)@.senders,
        old(channel)@.closed ==> {
            &&& flow == SendFlow::<T, W>::Done { result: Err(value), receiver: None }
            &&& final(channel)@.values == old(channel)@.values
            &&& final(channel)@.receiver == old(channel)@.receiver
        },
        !old(channel)@.closed && old(channel)@.values.len() >= old(channel)@.bound ==> {
            &&& flow == SendFlow::<T, W>::Wait { value }
            &&& final(channel)@.values == old(channel)@.values
            &&& final(channel)@.receiver == old(channel)@.receiver
        },
        !old(channel)@.closed && old(channel)@.values.len() < old(channel)@.bound ==> {
            &&& flow == SendFlow::<T, W>::Done { result: Ok(()), receiver: old(channel)@.receiver }
            &&& final(channel)@.values == old(channel)@.values.push(value)
            &&& final(channel)@.receiver is None
        },
{
}

/// What comes out is the first value, closed or not. If a sender waited, the value of the first one
/// goes in last, and that sender is to be woken and waits no longer. Without a value a closed channel
/// gives none, and an open one has the receiver wait, with nothing changed.
pub proof fn law_recv<T, W>(
    receiver: &mut Receiver,
    channel: &mut Channel<T, W>,
    flow: RecvFlow<T, W>,
)
    requires
        old(channel)@.inv(),
        call_ensures(Receiver::recv::<T, W>, (receiver, channel), flow),
    ensures
        final(channel)@.closed == old(channel)@.closed,
        final(channel)@.sender_count == old(channel)@.sender_count,
        final(channel)@.bound == old(channel)@.bound,
        final(channel)@.receiver == old(channel)@.receiver,
        old(channel)@.values.len() == 0 ==> {
            &&& final(channel)@.values == old(channel)@.values
            &&& final(channel)@.senders == old(channel)@.senders
            &&& old(channel)@.closed ==> flow == RecvFlow::<T, W>::Done {
                value: None,
                sender: None,
            }
            &&& !old(channel)@.closed ==> flow == RecvFlow::<T, W>::Wait
        },
        old(channel)@.values.len() > 0 && old(channel)@.senders.len() == 0 ==> {
            &&& flow == RecvFlow::<T, W>::Done {
                value: Some(old(channel)@.values.first()),
                sender: None,
            }
            &&& final(channel)@.values == old(channel)@.values.drop_first()
            &&& final(channel)@.senders.len() == 0
        },
        old(channel)@.values.len() > 0 && old(channel)@.senders.len() > 0 ==> {
            let (woken, entered) = match old(channel)@.senders.first() {
                Waiter::Task { waker, value } => (Waker::Task(waker), value),
                Waiter::Thread { waker, value } => (Waker::Thread(waker), value),
            };
            &&& flow == RecvFlow::Done {
                value: Some(old(channel)@.values.first()),
                sender: Some(woken),
            }
            &&& final(channel)@.values == old(channel)@.values.drop_first().push(entered)
            &&& final(channel)@.senders == old(channel)@.senders.drop_first()
        },
{
}

/// Those who wait are asked for in the order in which they came: a sender with its value behind the
/// others, and the one receiver.
pub proof fn law_waits_in_line<T, W>(
    receiving: &mut Channel<T, W>,
    sending: &mut Channel<T, W>,
    waker: W,
    waiter: Waiter<T, W>,
)
    requires
        call_ensures(Channel::<T, W>::queue_receiver, (receiving, waker), ()),
        call_ensures(Channel::<T, W>::queue_sender, (sending, waiter), ()),
    ensures
        final(receiving)@.receiver == Some(waker),
        final(receiving)@.closed == old(receiving)@.closed,
        final(receiving)@.sender_count == old(receiving)@.sender_count,
        final(receiving)@.bound == old(receiving)@.bound,
        final(receiving)@.values == old(receiving)@.values,
        final(receiving)@.senders == old(receiving)@.senders,
        final(sending)@.senders == old(sending)@.senders.push(waiter),
        final(sending)@.closed == old(sending)@.closed,
        final(sending)@.sender_count == old(sending)@.sender_count,
        final(sending)@.bound == old(sending)@.bound,
        final(sending)@.values == old(sending)@.values,
        final(sending)@.receiver == old(sending)@.receiver,
{
}

/// Another sender, whoever constructs it, is one more to drop before the channel closes, and nothing
/// else.
pub proof fn law_another_is_one_more<T, W>(
    sender: &Sender,
    receiver: &mut Receiver,
    adding: &mut Channel<T, W>,
    constructing: &mut Channel<T, W>,
    added: Sender,
    constructed: Sender,
)
    requires
        call_ensures(Sender::another::<T, W>, (sender, adding), added),
        *old(constructing) == *final(adding),
        call_ensures(Receiver::sender::<T, W>, (receiver, constructing), constructed),
    ensures
        final(adding)@.sender_count == old(adding)@.sender_count + 1,
        final(constructing)@.sender_count == old(adding)@.sender_count + 2,
        final(constructing)@.closed == old(adding)@.closed,
        final(constructing)@.bound == old(adding)@.bound,
        final(constructing)@.values == old(adding)@.values,
        final(constructing)@.senders == old(adding)@.senders,
        final(constructing)@.receiver == old(adding)@.receiver,
{
}

/// The last sender closes the channel, and no other: everyone who waited is to be woken and waits no
/// longer, and what was sent stays to be received.
pub proof fn law_last_sender_closes<T, W>(
    sender: Sender,
    channel: &mut Channel<T, W>,
    closing: Option<Closing<T, W>>,
)
    requires
        old(channel)@.sender_count > 0,
        call_ensures(Sender::close::<T, W>, (sender, channel), closing),
    ensures
        final(channel)@.sender_count == old(channel)@.sender_count - 1,
        final(channel)@.closed == (old(channel)@.closed || final(channel)@.sender_count == 0),
        final(channel)@.bound == old(channel)@.bound,
        final(channel)@.values == old(channel)@.values,
        closing is Some <==> final(channel)@.sender_count == 0,
        closing is Some ==> {
            &&& closing->0.senders@ == old(channel)@.senders
            &&& closing->0.receiver == old(channel)@.receiver
            &&& final(channel)@.senders.len() == 0
            &&& final(channel)@.receiver is None
        },
        closing is None ==> {
            &&& final(channel)@.senders == old(channel)@.senders
            &&& final(channel)@.receiver == old(channel)@.receiver
        },
{
}

/// The receiver closes the channel once: when it is told to, or when it is dropped without having
/// been told. Everyone who waited is to be woken and waits no longer, and what was sent stays to be
/// received.
pub proof fn law_receiver_closes<T, W>(
    receiver: &mut Receiver,
    channel: &mut Channel<T, W>,
    closing: Closing<T, W>,
    dropped: Receiver,
    terminated: &mut Channel<T, W>,
    terminating: Option<Closing<T, W>>,
)
    requires
        call_ensures(Receiver::close::<T, W>, (receiver, channel), closing),
        call_ensures(Receiver::terminate::<T, W>, (dropped, terminated), terminating),
    ensures
        final(channel)@.closed,
        final(channel)@.sender_count == old(channel)@.sender_count,
        final(channel)@.bound == old(channel)@.bound,
        final(channel)@.values == old(channel)@.values,
        closing.senders@ == old(channel)@.senders,
        closing.receiver == old(channel)@.receiver,
        final(channel)@.senders.len() == 0,
        final(channel)@.receiver is None,
        final(terminated)@.sender_count == old(terminated)@.sender_count,
        final(terminated)@.bound == old(terminated)@.bound,
        final(terminated)@.values == old(terminated)@.values,
        terminating is Some ==> {
            &&& final(terminated)@.closed
            &&& terminating->0.senders@ == old(terminated)@.senders
            &&& terminating->0.receiver == old(terminated)@.receiver
            &&& final(terminated)@.senders.len() == 0
            &&& final(terminated)@.receiver is None
        },
        terminating is None ==> {
            &&& final(terminated)@.closed == old(terminated)@.closed
            &&& final(terminated)@.senders == old(terminated)@.senders
            &&& final(terminated)@.receiver == old(terminated)@.receiver
        },
        dropped == *final(receiver) ==> terminating is None,
{
}

/// A new channel is open and empty, has one sender and the room that it was asked for, and nobody
/// waits. Its receiver closes it when dropped.
pub proof fn law_new_channel<T, W>(
    bound: usize,
    initial_capacity: usize,
    bounded: (Channel<T, W>, Sender, Receiver),
    unbounded: (Channel<T, W>, Sender, Receiver),
    dropped: &mut Channel<T, W>,
    terminating: Option<Closing<T, W>>,
)
    requires
        call_ensures(self::bounded::<T, W>, (bound,), bounded),
        call_ensures(self::unbounded::<T, W>, (initial_capacity,), unbounded),
        call_ensures(Receiver::terminate::<T, W>, (bounded.2, dropped), terminating),
    ensures
        bounded.0@.bound == bound,
        unbounded.0@.bound == usize::MAX,
        !bounded.0@.closed && !unbounded.0@.closed,
        bounded.0@.sender_count == 1 && unbounded.0@.sender_count == 1,
        bounded.0@.values.len() == 0 && unbounded.0@.values.len() == 0,
        bounded.0@.senders.len() == 0 && unbounded.0@.senders.len() == 0,
        bounded.0@.receiver is None && unbounded.0@.receiver is None,
        terminating is Some,
{
}

/// What is sent to an empty channel and then received is the same value, and leaves the channel
/// empty.
pub proof fn law_received_as_sent<T, W>(
    sender: &mut Sender,
    receiver: &mut Receiver,
    sending: &mut Channel<T, W>,
    receiving: &mut Channel<T, W>,
    value: T,
    sent: SendFlow<T, W>,
    received: RecvFlow<T, W>,
)
    requires
        old(sending)@.inv(),
        !old(sending)@.closed,
        old(sending)@.values.len() == 0,
        call_ensures(Sender::send::<T, W>, (sender, sending, value), sent),
        *old(receiving) == *final(sending),
        call_ensures(Receiver::recv::<T, W>, (receiver, receiving), received),
    ensures
        received == (RecvFlow::<T, W>::Done { value: Some(value), sender: None }),
        final(receiving)@.values.len() == 0,
{
}

/// A bounded channel reserves its room from the start, and an unbounded one what it is told to.
pub proof fn law_capacity(capacity: usize, bounded: Capacity, unbounded: Capacity)
    requires
        call_ensures(Capacity::bounded, (capacity,), bounded),
        call_ensures(Capacity::unbounded, (capacity,), unbounded),
    ensures
        bounded.spec_min() == capacity,
        bounded.spec_max() == capacity,
        unbounded.spec_min() == capacity,
        unbounded.spec_max() == usize::MAX,
{
}

} // verus!
