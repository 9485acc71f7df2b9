//! Channel utilities for communication across coroutines in one task.
//!
//! A channel is a value of its own here. Senders and receivers are handed the channel that they
//! belong to, and `wake`, which resumes a waiting coroutine or applies a permit to a waiting
//! selection, and tells whether it was the first to do so.

use std::collections::VecDeque;

use vstd::prelude::*;

use super::error::{SendError, TryRecvError, TrySendError};
use super::order::{Event, Held};
use crate::select::{Identifier, Permit, PermitView, Selector, TrySelectError};

verus! {

/// Whom to wake when a channel becomes ready.
pub enum Waker<W> {
    Selector(Selector<W>),
    Resumption(W),
}

/// What a waker is woken with.
pub enum Wakeup {
    /// A suspended coroutine goes on.
    Resume,
    /// The candidate at `index` got a permit.
    Select { index: usize },
}

impl<W> Waker<W> {
    /// Whether this waker may have answered `waked`. A suspended coroutine always goes on.
    pub open spec fn answered<F: Fn(W, Wakeup) -> bool>(&self, wake: F, waked: bool) -> bool {
        match *self {
            Waker::Selector(selector) => call_ensures(
                wake,
                (selector.spec_waker(), Wakeup::Select { index: selector.spec_index() }),
                waked,
            ),
            Waker::Resumption(resumption) => waked && exists|resumed: bool| #[trigger]
                call_ensures(wake, (resumption, Wakeup::Resume), resumed),
        }
    }

    /// Whether this waker has been woken, whatever it answered.
    pub open spec fn told<F: Fn(W, Wakeup) -> bool>(&self, wake: F) -> bool {
        exists|waked: bool| #[trigger] self.answered(wake, waked)
    }

    pub open spec fn spec_matches(&self, identifier: u64) -> bool {
        match *self {
            Waker::Selector(selector) => selector.spec_identifier() == identifier,
            Waker::Resumption(_) => false,
        }
    }

    fn wake<F: Fn(W, Wakeup) -> bool>(self, wake: &F) -> (waked: bool)
        requires
            forall|waker: W, wakeup: Wakeup| #[trigger] call_requires(*wake, (waker, wakeup)),
        ensures
            self.answered(*wake, waked),
    {
        match self {
            Waker::Selector(selector) => {
                let (waker, (index, _permit)) = selector.apply(Permit::default());
                wake(waker, Wakeup::Select { index })
            },
            Waker::Resumption(resumption) => {
                wake(resumption, Wakeup::Resume);
                true
            },
        }
    }

    fn matches(&self, identifier: &Identifier) -> (matched: bool)
        ensures
            matched == self.spec_matches(identifier@),
    {
        match self {
            Waker::Selector(selector) => selector.identify(identifier),
            Waker::Resumption(_) => false,
        }
    }
}

/// Whether the wakers have been woken in turn, up to the `n`-th, who took it, or all in vain.
pub open spec fn woke_one<W, F: Fn(W, Wakeup) -> bool>(
    before: Seq<Waker<W>>,
    after: Seq<Waker<W>>,
    n: int,
    wake: F,
) -> bool {
    &&& 0 <= n <= before.len()
    &&& forall|i: int| 0 <= i < n ==> (#[trigger] before[i]).answered(wake, false)
    &&& if n < before.len() {
        before[n].answered(wake, true) && after == before.skip(n + 1)
    } else {
        after == Seq::<Waker<W>>::empty()
    }
}

/// Whether all wakers have been woken.
pub open spec fn woke_all<W, F: Fn(W, Wakeup) -> bool>(wakers: Seq<Waker<W>>, wake: F) -> bool {
    forall|i: int| 0 <= i < wakers.len() ==> (#[trigger] wakers[i]).told(wake)
}

/// Whether the first waker of the identified selection has gone, if there is one.
pub open spec fn unwatched<W>(
    before: Seq<Waker<W>>,
    after: Seq<Waker<W>>,
    identifier: u64,
) -> bool {
    ||| after == before && forall|i: int|
        0 <= i < before.len() ==> !(#[trigger] before[i]).spec_matches(identifier)
    ||| exists|i: int|
        {
            &&& 0 <= i < before.len()
            &&& (#[trigger] before[i]).spec_matches(identifier)
            &&& forall|j: int| 0 <= j < i ==> !(#[trigger] before[j]).spec_matches(identifier)
            &&& after == before.remove(i)
        }
}

fn wake_one<W, F: Fn(W, Wakeup) -> bool>(wakers: &mut VecDeque<Waker<W>>, wake: &F)
    requires
        forall|waker: W, wakeup: Wakeup| #[trigger] call_requires(*wake, (waker, wakeup)),
    ensures
        exists|n: int| #[trigger] woke_one(old(wakers)@, final(wakers)@, n, *wake),
{
    let ghost before = wakers@;
    let ghost mut n: int = 0;
    while wakers.len() > 0
        invariant
            forall|waker: W, wakeup: Wakeup| #[trigger] call_requires(*wake, (waker, wakeup)),
            0 <= n <= before.len(),
            before == old(wakers)@,
            wakers@ == before.skip(n),
            forall|i: int| 0 <= i < n ==> (#[trigger] before[i]).answered(*wake, false),
        decreases wakers@.len(),
    {
        let waker = wakers.pop_front().unwrap();
        assert(waker == before[n]);
        assert(wakers@ =~= before.skip(n + 1));
        if waker.wake(wake) {
            assert(woke_one(before, wakers@, n, *wake));
            return;
        }
        proof {
            n = n + 1;
        }
    }
    assert(n == before.len());
    assert(wakers@ =~= Seq::empty());
    assert(woke_one(before, wakers@, n, *wake));
}

fn wake_all<W, F: Fn(W, Wakeup) -> bool>(wakers: &mut VecDeque<Waker<W>>, wake: &F)
    requires
        forall|waker: W, wakeup: Wakeup| #[trigger] call_requires(*wake, (waker, wakeup)),
    ensures
        woke_all(old(wakers)@, *wake),
        final(wakers)@ == Seq::<Waker<W>>::empty(),
{
    let ghost before = wakers@;
    let ghost mut n: int = 0;
    while wakers.len() > 0
        invariant
            forall|waker: W, wakeup: Wakeup| #[trigger] call_requires(*wake, (waker, wakeup)),
            0 <= n <= before.len(),
            before == old(wakers)@,
            wakers@ == before.skip(n),
            forall|i: int| 0 <= i < n ==> (#[trigger] before[i]).told(*wake),
        decreases wakers@.len(),
    {
        let waker = wakers.pop_front().unwrap();
        assert(waker == before[n]);
        assert(wakers@ =~= before.skip(n + 1));
        let waked = waker.wake(wake);
        assert(before[n].answered(*wake, waked));
        proof {
            n = n + 1;
        }
    }
    assert(wakers@ =~= Seq::empty());
}

fn unwatch<W>(wakers: &mut VecDeque<Waker<W>>, identifier: &Identifier)
    ensures
        unwatched(old(wakers)@, final(wakers)@, identifier@),
{
    let mut i: usize = 0;
    while i < wakers.len()
        invariant
            0 <= i <= wakers@.len(),
            wakers@ == old(wakers)@,
            forall|j: int| 0 <= j < i ==> !(#[trigger] wakers@[j]).spec_matches(identifier@),
        decreases wakers@.len() - i,
    {
        if wakers[i].matches(identifier) {
            wakers.remove(i);
            return;
        }
        i = i + 1;
    }
}

/// A channel and the number of its senders and receivers.
#[verifier::ext_equal]
pub struct ChannelView<T, W> {
    pub closed: bool,
    pub bound: nat,
    pub values: Seq<T>,
    /// Who waits for room.
    pub waiting_senders: Seq<Waker<W>>,
    /// Who waits for a value.
    pub waiting_receivers: Seq<Waker<W>>,
    pub senders: nat,
    pub receivers: nat,
}

impl<T, W> ChannelView<T, W> {
    /// The bound is kept, nobody waits on a closed channel, and a channel without senders, or
    /// without receivers, is closed.
    pub open spec fn inv(self) -> bool {
        &&& 0 < self.bound <= usize::MAX
        &&& self.values.len() <= self.bound
        &&& self.closed ==> self.waiting_senders.len() == 0 && self.waiting_receivers.len() == 0
        &&& self.senders == 0 || self.receivers == 0 ==> self.closed
    }

    /// A channel with one sender and one receiver that nobody has used yet.
    pub open spec fn new(bound: nat) -> Self {
        ChannelView {
            closed: false,
            bound,
            values: Seq::empty(),
            waiting_senders: Seq::empty(),
            waiting_receivers: Seq::empty(),
            senders: 1,
            receivers: 1,
        }
    }

    pub open spec fn full(self) -> bool {
        self.values.len() == self.bound
    }

    /// Whether a send would not block.
    pub open spec fn sendable(self) -> bool {
        self.closed || !self.full()
    }

    /// Whether a receive would not block.
    pub open spec fn recvable(self) -> bool {
        self.closed || self.values.len() > 0
    }

    /// Whether no value will ever come again.
    pub open spec fn drained(self) -> bool {
        self.closed && self.values.len() == 0
    }

    pub open spec fn held(self) -> Held<T> {
        Held { values: self.values, open: !self.closed }
    }

    /// Whether the channel has been closed and everyone who waited has been woken.
    pub open spec fn closed_by<F: Fn(W, Wakeup) -> bool>(self, after: Self, wake: F) -> bool {
        &&& woke_all(self.waiting_senders, wake)
        &&& woke_all(self.waiting_receivers, wake)
        &&& after == (ChannelView {
            closed: true,
            waiting_senders: Seq::empty(),
            waiting_receivers: Seq::empty(),
            ..self
        })
    }

    /// Whether a sender has gone. The last one closes the channel.
    pub open spec fn lost_sender<F: Fn(W, Wakeup) -> bool>(self, after: Self, wake: F) -> bool {
        let fewer = ChannelView { senders: (self.senders - 1) as nat, ..self };
        if self.senders == 1 {
            fewer.closed_by(after, wake)
        } else {
            after == fewer
        }
    }

    /// Whether a receiver has gone. The last one closes the channel.
    pub open spec fn lost_receiver<F: Fn(W, Wakeup) -> bool>(self, after: Self, wake: F) -> bool {
        let fewer = ChannelView { receivers: (self.receivers - 1) as nat, ..self };
        if self.receivers == 1 {
            fewer.closed_by(after, wake)
        } else {
            after == fewer
        }
    }

    /// Whether `value` went in last, and one who waited for a value has been woken.
    pub open spec fn sent<F: Fn(W, Wakeup) -> bool>(self, value: T, after: Self, wake: F) -> bool {
        &&& exists|n: int| #[trigger]
            woke_one(self.waiting_receivers, after.waiting_receivers, n, wake)
        &&& after == (ChannelView {
            values: self.values.push(value),
            waiting_receivers: after.waiting_receivers,
            ..self
        })
    }

    /// Whether the first value came out, and one who waited for room has been woken.
    pub open spec fn received<F: Fn(W, Wakeup) -> bool>(self, after: Self, wake: F) -> bool {
        &&& exists|n: int| #[trigger]
            woke_one(self.waiting_senders, after.waiting_senders, n, wake)
        &&& after == (ChannelView {
            values: self.values.skip(1),
            waiting_senders: after.waiting_senders,
            ..self
        })
    }
}

pub struct Channel<T, W> {
    closed: bool,
    bound: usize,
    deque: VecDeque<T>,
    waiting_senders: VecDeque<Waker<W>>,
    waiting_receivers: VecDeque<Waker<W>>,
    senders: usize,
    receivers: usize,
}

impl<T, W> View for Channel<T, W> {
    type V = ChannelView<T, W>;

    closed spec fn view(&self) -> ChannelView<T, W> {
        ChannelView {
            closed: self.closed,
            bound: self.bound as nat,
            values: self.deque@,
            waiting_senders: self.waiting_senders@,
            waiting_receivers: self.waiting_receivers@,
            senders: self.senders as nat,
            receivers: self.receivers as nat,
        }
    }
}

/// Outcome of one attempt to send.
pub enum SendFlow<T> {
    Done(Result<(), TrySendError<T>>),
    Wait { value: T },
}

/// Outcome of one attempt to receive.
pub enum RecvFlow<T> {
    Done(Result<T, TryRecvError>),
    Wait,
}

impl<T, W> Channel<T, W> {
    fn new(capacity: usize, bound: usize) -> (channel: Self)
        requires
            bound > 0,
        ensures
            channel@ == ChannelView::<T, W>::new(bound as nat),
            channel@.inv(),
    {
        Channel {
            closed: false,
            bound,
            deque: VecDeque::with_capacity(capacity),
            waiting_senders: VecDeque::with_capacity(16),
            waiting_receivers: VecDeque::with_capacity(5),
            senders: 1,
            receivers: 1,
        }
    }

    fn is_full(&self) -> (full: bool)
        ensures
            full == self@.full(),
    {
        self.bound == self.deque.len()
    }

    /// Returns true if a send would not block.
    pub fn is_sendable(&self) -> (sendable: bool)
        ensures
            sendable == self@.sendable(),
    {
        self.closed || !self.is_full()
    }

    /// Returns true if a receive would not block.
    pub fn is_recvable(&self) -> (recvable: bool)
        ensures
            recvable == self@.recvable(),
    {
        self.deque.len() > 0 || self.closed
    }

    fn close<F: Fn(W, Wakeup) -> bool>(&mut self, wake: &F)
        requires
            forall|waker: W, wakeup: Wakeup| #[trigger] call_requires(*wake, (waker, wakeup)),
        ensures
            old(self)@.closed_by(final(self)@, *wake),
    {
        self.closed = true;
        wake_all(&mut self.waiting_senders, wake);
        wake_all(&mut self.waiting_receivers, wake);
    }

    fn add_sender(&mut self)
        requires
            0 < old(self)@.senders < usize::MAX,
        ensures
            final(self)@ == (ChannelView { senders: old(self)@.senders + 1, ..old(self)@ }),
    {
        self.senders = self.senders + 1;
    }

    fn remove_sender<F: Fn(W, Wakeup) -> bool>(&mut self, wake: &F)
        requires
            forall|waker: W, wakeup: Wakeup| #[trigger] call_requires(*wake, (waker, wakeup)),
            old(self)@.inv(),
            0 < old(self)@.senders,
        ensures
            final(self)@.inv(),
            old(self)@.lost_sender(final(self)@, *wake),
    {
        self.senders = self.senders - 1;
        if self.senders == 0 {
            self.close(wake);
        }
    }

    fn add_receiver(&mut self)
        requires
            0 < old(self)@.receivers < usize::MAX,
        ensures
            final(self)@ == (ChannelView { receivers: old(self)@.receivers + 1, ..old(self)@ }),
    {
        self.receivers = self.receivers + 1;
    }

    fn remove_receiver<F: Fn(W, Wakeup) -> bool>(&mut self, wake: &F)
        requires
            forall|waker: W, wakeup: Wakeup| #[trigger] call_requires(*wake, (waker, wakeup)),
            old(self)@.inv(),
            0 < old(self)@.receivers,
        ensures
            final(self)@.inv(),
            old(self)@.lost_receiver(final(self)@, *wake),
    {
        self.receivers = self.receivers - 1;
        if self.receivers == 0 {
            self.close(wake);
        }
    }

    fn send<F: Fn(W, Wakeup) -> bool>(&mut self, trying: bool, value: T, wake: &F) -> (flow:
        SendFlow<T>)
        requires
            forall|waker: W, wakeup: Wakeup| #[trigger] call_requires(*wake, (waker, wakeup)),
            old(self)@.inv(),
        ensures
            final(self)@.inv(),
            if old(self)@.closed {
                &&& flow == SendFlow::Done(Err(TrySendError::Closed(value)))
                &&& final(self)@ == old(self)@
            } else if !old(self)@.full() {
                &&& flow == SendFlow::<T>::Done(Ok(()))
                &&& old(self)@.sent(value, final(self)@, *wake)
            } else {
                &&& final(self)@ == old(self)@
                &&& flow == if trying {
                    SendFlow::Done(Err(TrySendError::Full(value)))
                } else {
                    SendFlow::Wait { value }
                }
            },
    {
        if self.closed {
            SendFlow::Done(Err(TrySendError::Closed(value)))
        } else if !self.is_full() {
            self.deque.push_back(value);
            let ghost waiting = self.waiting_receivers@;
            wake_one(&mut self.waiting_receivers, wake);
            proof {
                let n = choose|n: int| #[trigger]
                    woke_one(waiting, self.waiting_receivers@, n, *wake);
                assert(woke_one(old(self)@.waiting_receivers, self@.waiting_receivers, n, *wake));
            }
            SendFlow::Done(Ok(()))
        } else if trying {
            SendFlow::Done(Err(TrySendError::Full(value)))
        } else {
            SendFlow::Wait { value }
        }
    }

    /// Queues a coroutine that has to wait for room.
    pub fn queue_sender(&mut self, resumption: W)
        requires
            old(self)@.inv(),
            !old(self)@.sendable(),
        ensures
            final(self)@.inv(),
            old(self)@.held().passes(Event::Rest, final(self)@.held()),
            final(self)@ == (ChannelView {
                waiting_senders: old(self)@.waiting_senders.push(Waker::Resumption(resumption)),
                ..old(self)@
            }),
    {
        self.waiting_senders.push_back(Waker::Resumption(resumption));
    }

    fn recv<F: Fn(W, Wakeup) -> bool>(&mut self, trying: bool, wake: &F) -> (flow: RecvFlow<T>)
        requires
            forall|waker: W, wakeup: Wakeup| #[trigger] call_requires(*wake, (waker, wakeup)),
            old(self)@.inv(),
        ensures
            final(self)@.inv(),
            if old(self)@.values.len() > 0 {
                &&& flow == RecvFlow::Done(Ok::<_, TryRecvError>(old(self)@.values[0]))
                &&& old(self)@.received(final(self)@, *wake)
            } else {
                &&& final(self)@ == old(self)@
                &&& flow == if old(self)@.closed {
                    RecvFlow::<T>::Done(Err(TryRecvError::Closed))
                } else if trying {
                    RecvFlow::Done(Err(TryRecvError::Empty))
                } else {
                    RecvFlow::Wait
                }
            },
    {
        if let Some(value) = self.deque.pop_front() {
            let ghost waiting = self.waiting_senders@;
            wake_one(&mut self.waiting_senders, wake);
            proof {
                let n = choose|n: int| #[trigger]
                    woke_one(waiting, self.waiting_senders@, n, *wake);
                assert(woke_one(old(self)@.waiting_senders, self@.waiting_senders, n, *wake));
            }
            assert(self.deque@ =~= old(self)@.values.skip(1));
            RecvFlow::Done(Ok(value))
        } else if self.closed {
            RecvFlow::Done(Err(TryRecvError::Closed))
        } else if trying {
            RecvFlow::Done(Err(TryRecvError::Empty))
        } else {
            RecvFlow::Wait
        }
    }

    /// Queues a coroutine that has to wait for a value.
    pub fn queue_receiver(&mut self, resumption: W)
        requires
            old(self)@.inv(),
            !old(self)@.recvable(),
        ensures
            final(self)@.inv(),
            old(self)@.held().passes(Event::Rest, final(self)@.held()),
            final(self)@ == (ChannelView {
                waiting_receivers: old(self)@.waiting_receivers.push(
                    Waker::Resumption(resumption),
                ),
                ..old(self)@
            }),
    {
        self.waiting_receivers.push_back(Waker::Resumption(resumption));
    }

    fn watch_sendable(&mut self, selector: Selector<W>) -> (watched: bool)
        requires
            old(self)@.inv(),
            !old(self)@.sendable(),
        ensures
            final(self)@.inv(),
            watched,
            final(self)@ == (ChannelView {
                waiting_senders: old(self)@.waiting_senders.push(Waker::Selector(selector)),
                ..old(self)@
            }),
    {
        self.waiting_senders.push_back(Waker::Selector(selector));
        true
    }

    fn watch_recvable(&mut self, selector: Selector<W>) -> (watched: bool)
        requires
            old(self)@.inv(),
            !old(self)@.recvable(),
        ensures
            final(self)@.inv(),
            watched,
            final(self)@ == (ChannelView {
                waiting_receivers: old(self)@.waiting_receivers.push(Waker::Selector(selector)),
                ..old(self)@
            }),
    {
        self.waiting_receivers.push_back(Waker::Selector(selector));
        true
    }

    fn unwatch_sendable(&mut self, identifier: &Identifier)
        requires
            old(self)@.inv(),
        ensures
            final(self)@.inv(),
            unwatched(old(self)@.waiting_senders, final(self)@.waiting_senders, identifier@),
            final(self)@ == (ChannelView {
                waiting_senders: final(self)@.waiting_senders,
                ..old(self)@
            }),
    {
        unwatch(&mut self.waiting_senders, identifier);
    }

    fn unwatch_recvable(&mut self, identifier: &Identifier)
        requires
            old(self)@.inv(),
        ensures
            final(self)@.inv(),
            unwatched(old(self)@.waiting_receivers, final(self)@.waiting_receivers, identifier@),
            final(self)@ == (ChannelView {
                waiting_receivers: final(self)@.waiting_receivers,
                ..old(self)@
            }),
    {
        unwatch(&mut self.waiting_receivers, identifier);
    }
}

/// Outcome of a send.
pub enum Sending<T> {
    Done(Result<(), SendError<T>>),
    /// Queue a coroutine with [Channel::queue_sender], and send the value again once it goes on.
    Wait { value: T },
}

/// Outcome of a receive.
pub enum Receiving<T> {
    Done(Option<T>),
    /// Queue a coroutine with [Channel::queue_receiver], and receive again once it goes on.
    Wait,
}

/// Sending peer of [Receiver]. Additional senders could be constructed by [Sender::another].
pub struct Sender {
    attached: bool,
}

impl Sender {
    /// Whether this sender is still counted by its channel.
    pub closed spec fn attached(&self) -> bool {
        self.attached
    }

    /// Whether this sender may be used with the channel.
    pub open spec fn of<T, W>(&self, channel: ChannelView<T, W>) -> bool {
        &&& channel.inv()
        &&& self.attached() ==> channel.senders > 0
    }

    /// Sends a value to receiving peer.
    ///
    /// This operation could block if channel is full.
    pub fn send<T, W, F: Fn(W, Wakeup) -> bool>(
        &mut self,
        channel: &mut Channel<T, W>,
        value: T,
        wake: &F,
    ) -> (sending: Sending<T>)
        requires
            forall|waker: W, wakeup: Wakeup| #[trigger] call_requires(*wake, (waker, wakeup)),
            old(self).of(old(channel)@),
        ensures
            final(self).of(final(channel)@),
            old(channel)@.held().passes(
                if sending == Sending::<T>::Done(Ok(())) {
                    Event::Sent(value)
                } else {
                    Event::Rest
                },
                final(channel)@.held(),
            ),
            if !old(self).attached() {
                &&& sending == Sending::Done(Err(SendError::Closed(value)))
                &&& !final(self).attached()
                &&& final(channel)@ == old(channel)@
            } else if old(channel)@.closed {
                &&& sending == Sending::Done(Err(SendError::Closed(value)))
                &&& !final(self).attached()
                &&& old(channel)@.lost_sender(final(channel)@, *wake)
            } else if old(channel)@.full() {
                &&& sending == Sending::Wait { value }
                &&& final(self).attached()
                &&& final(channel)@ == old(channel)@
            } else {
                &&& sending == Sending::<T>::Done(Ok(()))
                &&& final(self).attached()
                &&& old(channel)@.sent(value, final(channel)@, *wake)
            },
    {
        if self.attached {
            return match channel.send(false, value, wake) {
                SendFlow::Done(Ok(_)) => Sending::Done(Ok(())),
                SendFlow::Wait { value } => Sending::Wait { value },
                SendFlow::Done(Err(err)) => {
                    channel.remove_sender(wake);
                    self.attached = false;
                    Sending::Done(Err(SendError::from_try(err)))
                },
            };
        }
        Sending::Done(Err(SendError::Closed(value)))
    }

    /// Attempts to send a value to receiver peer without blocking current execution.
    pub fn try_send<T, W, F: Fn(W, Wakeup) -> bool>(
        &mut self,
        channel: &mut Channel<T, W>,
        value: T,
        wake: &F,
    ) -> (result: Result<(), TrySendError<T>>)
        requires
            forall|waker: W, wakeup: Wakeup| #[trigger] call_requires(*wake, (waker, wakeup)),
            old(self).of(old(channel)@),
        ensures
            final(self).of(final(channel)@),
            old(channel)@.held().passes(
                if result is Ok {
                    Event::Sent(value)
                } else {
                    Event::Rest
                },
                final(channel)@.held(),
            ),
            if !old(self).attached() {
                &&& result == Err::<(), _>(TrySendError::Closed(value))
                &&& !final(self).attached()
                &&& final(channel)@ == old(channel)@
            } else if old(channel)@.closed {
                &&& result == Err::<(), _>(TrySendError::Closed(value))
                &&& !final(self).attached()
                &&& old(channel)@.lost_sender(final(channel)@, *wake)
            } else if old(channel)@.full() {
                &&& result == Err::<(), _>(TrySendError::Full(value))
                &&& final(self).attached()
                &&& final(channel)@ == old(channel)@
            } else {
                &&& result is Ok
                &&& final(self).attached()
                &&& old(channel)@.sent(value, final(channel)@, *wake)
            },
    {
        if self.attached {
            return match channel.send(true, value, wake) {
                SendFlow::Done(Ok(_)) => Ok(()),
                SendFlow::Wait { value } => Err(TrySendError::Full(value)),
                SendFlow::Done(Err(TrySendError::Full(value))) => Err(TrySendError::Full(value)),
                SendFlow::Done(Err(TrySendError::Closed(value))) => {
                    channel.remove_sender(wake);
                    self.attached = false;
                    Err(TrySendError::Closed(value))
                },
            };
        }
        Err(TrySendError::Closed(value))
    }

    /// Closes this sender. If this is the last sender, the underlying channel will also be closed.
    pub fn close<T, W, F: Fn(W, Wakeup) -> bool>(&mut self, channel: &mut Channel<T, W>, wake: &F)
        requires
            forall|waker: W, wakeup: Wakeup| #[trigger] call_requires(*wake, (waker, wakeup)),
            old(self).of(old(channel)@),
        ensures
            final(self).of(final(channel)@),
            old(channel)@.held().passes(Event::Rest, final(channel)@.held()),
            !final(self).attached(),
            if old(self).attached() {
                old(channel)@.lost_sender(final(channel)@, *wake)
            } else {
                final(channel)@ == old(channel)@
            },
    {
        if self.attached {
            self.attached = false;
            channel.remove_sender(wake);
        }
    }

    /// Returns true if sender or channel closed.
    ///
    /// It may not reflect newest channel status, but it must reflect last send or close.
    pub fn is_closed(&self) -> (closed: bool)
        ensures
            closed == !self.attached(),
    {
        !self.attached
    }

    /// Constructs another sender of the same channel, closed if this one is.
    pub fn another<T, W>(&self, channel: &mut Channel<T, W>) -> (sender: Sender)
        requires
            self.of(old(channel)@),
            old(channel)@.senders < usize::MAX,
        ensures
            self.of(final(channel)@),
            old(channel)@.held().passes(Event::Rest, final(channel)@.held()),
            sender.of(final(channel)@),
            sender.attached() == self.attached(),
            final(channel)@ == if self.attached() {
                (ChannelView { senders: old(channel)@.senders + 1, ..old(channel)@ })
            } else {
                old(channel)@
            },
    {
        if self.attached {
            channel.add_sender();
        }
        Sender { attached: self.attached }
    }

    /// Returns true if permit watching will contend with possible parallel executions.
    pub fn parallel(&self) -> (parallel: bool)
        ensures
            !parallel,
    {
        false
    }

    /// Select for available permit.
    pub fn select_permit<T, W>(&self, channel: &Channel<T, W>) -> (permit: Result<
        Permit,
        TrySelectError,
    >)
        requires
            self.of(channel@),
        ensures
            if !self.attached() {
                permit == Err::<Permit, _>(TrySelectError::Completed)
            } else if channel@.sendable() {
                permit is Ok && permit->Ok_0@ == (PermitView { primitive: 0, attendant: None })
            } else {
                permit == Err::<Permit, _>(TrySelectError::WouldBlock)
            },
    {
        if self.attached {
            if channel.is_sendable() {
                Ok(Permit::default())
            } else {
                Err(TrySelectError::WouldBlock)
            }
        } else {
            Err(TrySelectError::Completed)
        }
    }

    /// Watches for available permit. There must be none now.
    pub fn watch_permit<T, W>(&self, channel: &mut Channel<T, W>, selector: Selector<W>) -> (watched:
        bool)
        requires
            self.of(old(channel)@),
            self.attached() ==> !old(channel)@.sendable(),
        ensures
            self.of(final(channel)@),
            old(channel)@.held().passes(Event::Rest, final(channel)@.held()),
            watched == self.attached(),
            final(channel)@ == if self.attached() {
                (ChannelView {
                    waiting_senders: old(channel)@.waiting_senders.push(
                        Waker::Selector(selector),
                    ),
                    ..old(channel)@
                })
            } else {
                old(channel)@
            },
    {
        if self.attached {
            channel.watch_sendable(selector)
        } else {
            false
        }
    }

    /// Unwatches possible applied selector.
    pub fn unwatch_permit<T, W>(&self, channel: &mut Channel<T, W>, identifier: &Identifier)
        requires
            self.of(old(channel)@),
        ensures
            self.of(final(channel)@),
            old(channel)@.held().passes(Event::Rest, final(channel)@.held()),
            if self.attached() {
                unwatched(
                    old(channel)@.waiting_senders,
                    final(channel)@.waiting_senders,
                    identifier@,
                )
            } else {
                final(channel)@ == old(channel)@
            },
            final(channel)@ == (ChannelView {
                waiting_senders: final(channel)@.waiting_senders,
                ..old(channel)@
            }),
    {
        if self.attached {
            channel.unwatch_sendable(identifier);
        }
    }

    /// Consumes permit and writes given value. This operation does not block.
    pub fn consume_permit<T, W, F: Fn(W, Wakeup) -> bool>(
        &mut self,
        channel: &mut Channel<T, W>,
        _permit: Permit,
        value: T,
        wake: &F,
    ) -> (result: Result<(), SendError<T>>)
        requires
            forall|waker: W, wakeup: Wakeup| #[trigger] call_requires(*wake, (waker, wakeup)),
            old(self).of(old(channel)@),
            old(self).attached() ==> old(channel)@.sendable(),
        ensures
            final(self).of(final(channel)@),
            old(channel)@.held().passes(
                if result is Ok {
                    Event::Sent(value)
                } else {
                    Event::Rest
                },
                final(channel)@.held(),
            ),
            if !old(self).attached() {
                &&& result == Err::<(), _>(SendError::Closed(value))
                &&& !final(self).attached()
                &&& final(channel)@ == old(channel)@
            } else if old(channel)@.closed {
                &&& result == Err::<(), _>(SendError::Closed(value))
                &&& !final(self).attached()
                &&& old(channel)@.lost_sender(final(channel)@, *wake)
            } else {
                &&& result is Ok
                &&& final(self).attached()
                &&& old(channel)@.sent(value, final(channel)@, *wake)
            },
    {
        match self.try_send(channel, value, wake) {
            Ok(()) => Ok(()),
            Err(TrySendError::Full(value)) => Err(SendError::Closed(value)),
            Err(TrySendError::Closed(value)) => Err(SendError::Closed(value)),
        }
    }
}

/// Receiving peer of [Sender].
pub struct Receiver {
    attached: bool,
}

impl Receiver {
    /// Whether this receiver is still counted by its channel.
    pub closed spec fn attached(&self) -> bool {
        self.attached
    }

    /// Whether this receiver may be used with the channel.
    pub open spec fn of<T, W>(&self, channel: ChannelView<T, W>) -> bool {
        &&& channel.inv()
        &&& self.attached() ==> channel.receivers > 0
    }

    /// Terminate this receiver for receiving values.
    pub fn terminate<T, W, F: Fn(W, Wakeup) -> bool>(
        &mut self,
        channel: &mut Channel<T, W>,
        wake: &F,
    )
        requires
            forall|waker: W, wakeup: Wakeup| #[trigger] call_requires(*wake, (waker, wakeup)),
            old(self).of(old(channel)@),
        ensures
            final(self).of(final(channel)@),
            old(channel)@.held().passes(Event::Rest, final(channel)@.held()),
            !final(self).attached(),
            if old(self).attached() {
                old(channel)@.lost_receiver(final(channel)@, *wake)
            } else {
                final(channel)@ == old(channel)@
            },
    {
        if self.attached {
            self.attached = false;
            channel.remove_receiver(wake);
        }
    }

    /// Receives a value from [Sender]s.
    ///
    /// Gives `None` if channel is closed and has no buffered values.
    pub fn recv<T, W, F: Fn(W, Wakeup) -> bool>(
        &mut self,
        channel: &mut Channel<T, W>,
        wake: &F,
    ) -> (receiving: Receiving<T>)
        requires
            forall|waker: W, wakeup: Wakeup| #[trigger] call_requires(*wake, (waker, wakeup)),
            old(self).of(old(channel)@),
        ensures
            final(self).of(final(channel)@),
            match receiving {
                Receiving::Done(Some(value)) => old(channel)@.held().gives(
                    value,
                    final(channel)@.held(),
                ),
                Receiving::Done(None) => old(self).attached() ==> old(channel)@.held().passes(
                    Event::Ended,
                    final(channel)@.held(),
                ),
                Receiving::Wait => old(channel)@.held().passes(
                    Event::Rest,
                    final(channel)@.held(),
                ),
            },
            if !old(self).attached() {
                &&& receiving == Receiving::<T>::Done(None)
                &&& !final(self).attached()
                &&& final(channel)@ == old(channel)@
            } else if old(channel)@.values.len() > 0 {
                &&& receiving == Receiving::Done(Some(old(channel)@.values[0]))
                &&& final(self).attached()
                &&& old(channel)@.received(final(channel)@, *wake)
            } else if old(channel)@.closed {
                &&& receiving == Receiving::<T>::Done(None)
                &&& !final(self).attached()
                &&& old(channel)@.lost_receiver(final(channel)@, *wake)
            } else {
                &&& receiving == Receiving::<T>::Wait
                &&& final(self).attached()
                &&& final(channel)@ == old(channel)@
            },
    {
        if self.attached {
            return match channel.recv(false, wake) {
                RecvFlow::Done(Ok(value)) => {
                    assert(old(channel)@.held().passes(
                        Event::Received { value, entered: Seq::empty() },
                        channel@.held(),
                    ));
                    Receiving::Done(Some(value))
                },
                RecvFlow::Wait => Receiving::Wait,
                RecvFlow::Done(Err(_)) => {
                    channel.remove_receiver(wake);
                    self.attached = false;
                    Receiving::Done(None)
                },
            };
        }
        Receiving::Done(None)
    }

    /// Attempts to receive a value from channel without blocking current execution.
    pub fn try_recv<T, W, F: Fn(W, Wakeup) -> bool>(
        &mut self,
        channel: &mut Channel<T, W>,
        wake: &F,
    ) -> (result: Result<T, TryRecvError>)
        requires
            forall|waker: W, wakeup: Wakeup| #[trigger] call_requires(*wake, (waker, wakeup)),
            old(self).of(old(channel)@),
        ensures
            final(self).of(final(channel)@),
            match result {
                Ok(value) => old(channel)@.held().gives(value, final(channel)@.held()),
                Err(TryRecvError::Closed) => old(self).attached()
                    ==> old(channel)@.held().passes(Event::Ended, final(channel)@.held()),
                Err(TryRecvError::Empty) => old(channel)@.held().passes(
                    Event::Rest,
                    final(channel)@.held(),
                ),
            },
            if !old(self).attached() {
                &&& result == Err::<T, _>(TryRecvError::Closed)
                &&& !final(self).attached()
                &&& final(channel)@ == old(channel)@
            } else if old(channel)@.values.len() > 0 {
                &&& result == Ok::<_, TryRecvError>(old(channel)@.values[0])
                &&& final(self).attached()
                &&& old(channel)@.received(final(channel)@, *wake)
            } else if old(channel)@.closed {
                &&& result == Err::<T, _>(TryRecvError::Closed)
                &&& !final(self).attached()
                &&& old(channel)@.lost_receiver(final(channel)@, *wake)
            } else {
                &&& result == Err::<T, _>(TryRecvError::Empty)
                &&& final(self).attached()
                &&& final(channel)@ == old(channel)@
            },
    {
        if self.attached {
            return match channel.recv(true, wake) {
                RecvFlow::Done(Ok(value)) => {
                    assert(old(channel)@.held().passes(
                        Event::Received { value, entered: Seq::empty() },
                        channel@.held(),
                    ));
                    Ok(value)
                },
                RecvFlow::Wait => Err(TryRecvError::Empty),
                RecvFlow::Done(Err(TryRecvError::Empty)) => Err(TryRecvError::Empty),
                RecvFlow::Done(Err(TryRecvError::Closed)) => {
                    channel.remove_receiver(wake);
                    self.attached = false;
                    Err(TryRecvError::Closed)
                },
            };
        }
        Err(TryRecvError::Closed)
    }

    /// Closes this channel for future sending.
    pub fn close<T, W, F: Fn(W, Wakeup) -> bool>(&mut self, channel: &mut Channel<T, W>, wake: &F)
        requires
            forall|waker: W, wakeup: Wakeup| #[trigger] call_requires(*wake, (waker, wakeup)),
            old(self).of(old(channel)@),
        ensures
            final(self).of(final(channel)@),
            old(channel)@.held().passes(Event::Rest, final(channel)@.held()),
            final(self).attached() == old(self).attached(),
            if old(self).attached() {
                old(channel)@.closed_by(final(channel)@, *wake)
            } else {
                final(channel)@ == old(channel)@
            },
    {
        if self.attached {
            channel.close(wake);
        }
    }

    /// Returns true if channel is closed and has no buffered values.
    ///
    /// It may not reflect newest channel status, but it must reflect last recv.
    pub fn is_drained(&self) -> (drained: bool)
        ensures
            drained == !self.attached(),
    {
        !self.attached
    }

    /// Constructs another receiver of the same channel, drained if this one is.
    pub fn another<T, W>(&self, channel: &mut Channel<T, W>) -> (receiver: Receiver)
        requires
            self.of(old(channel)@),
            old(channel)@.receivers < usize::MAX,
        ensures
            self.of(final(channel)@),
            old(channel)@.held().passes(Event::Rest, final(channel)@.held()),
            receiver.of(final(channel)@),
            receiver.attached() == self.attached(),
            final(channel)@ == if self.attached() {
                (ChannelView { receivers: old(channel)@.receivers + 1, ..old(channel)@ })
            } else {
                old(channel)@
            },
    {
        if self.attached {
            channel.add_receiver();
        }
        Receiver { attached: self.attached }
    }

    /// Returns true if permit watching will contend with possible parallel executions.
    pub fn parallel(&self) -> (parallel: bool)
        ensures
            !parallel,
    {
        false
    }

    /// Select for available permit.
    pub fn select_permit<T, W>(&self, channel: &Channel<T, W>) -> (permit: Result<
        Permit,
        TrySelectError,
    >)
        requires
            self.of(channel@),
        ensures
            if !self.attached() {
                permit == Err::<Permit, _>(TrySelectError::Completed)
            } else if channel@.recvable() {
                permit is Ok && permit->Ok_0@ == (PermitView { primitive: 0, attendant: None })
            } else {
                permit == Err::<Permit, _>(TrySelectError::WouldBlock)
            },
    {
        if self.attached {
            if channel.is_recvable() {
                Ok(Permit::default())
            } else {
                Err(TrySelectError::WouldBlock)
            }
        } else {
            Err(TrySelectError::Completed)
        }
    }

    /// Watches for available permit. There must be none now.
    pub fn watch_permit<T, W>(&self, channel: &mut Channel<T, W>, selector: Selector<W>) -> (watched:
        bool)
        requires
            self.of(old(channel)@),
            self.attached() ==> !old(channel)@.recvable(),
        ensures
            self.of(final(channel)@),
            old(channel)@.held().passes(Event::Rest, final(channel)@.held()),
            watched == self.attached(),
            final(channel)@ == if self.attached() {
                (ChannelView {
                    waiting_receivers: old(channel)@.waiting_receivers.push(
                        Waker::Selector(selector),
                    ),
                    ..old(channel)@
                })
            } else {
                old(channel)@
            },
    {
        if self.attached {
            channel.watch_recvable(selector)
        } else {
            false
        }
    }

    /// Unwatches possible applied selector.
    pub fn unwatch_permit<T, W>(&self, channel: &mut Channel<T, W>, identifier: &Identifier)
        requires
            self.of(old(channel)@),
        ensures
            self.of(final(channel)@),
            old(channel)@.held().passes(Event::Rest, final(channel)@.held()),
            if self.attached() {
                unwatched(
                    old(channel)@.waiting_receivers,
                    final(channel)@.waiting_receivers,
                    identifier@,
                )
            } else {
                final(channel)@ == old(channel)@
            },
            final(channel)@ == (ChannelView {
                waiting_receivers: final(channel)@.waiting_receivers,
                ..old(channel)@
            }),
    {
        if self.attached {
            channel.unwatch_recvable(identifier);
        }
    }

    /// Consumes permit and reads a value. This operation does not block.
    pub fn consume_permit<T, W, F: Fn(W, Wakeup) -> bool>(
        &mut self,
        channel: &mut Channel<T, W>,
        _permit: Permit,
        wake: &F,
    ) -> (value: Option<T>)
        requires
            forall|waker: W, wakeup: Wakeup| #[trigger] call_requires(*wake, (waker, wakeup)),
            old(self).of(old(channel)@),
            old(self).attached() ==> old(channel)@.recvable(),
        ensures
            final(self).of(final(channel)@),
            match value {
                Some(value) => old(channel)@.held().gives(value, final(channel)@.held()),
                None => old(self).attached() ==> old(channel)@.held().passes(
                    Event::Ended,
                    final(channel)@.held(),
                ),
            },
            if !old(self).attached() {
                &&& value is None
                &&& !final(self).attached()
                &&& final(channel)@ == old(channel)@
            } else if old(channel)@.values.len() > 0 {
                &&& value == Some(old(channel)@.values[0])
                &&& final(self).attached()
                &&& old(channel)@.received(final(channel)@, *wake)
            } else {
                &&& value is None
                &&& !final(self).attached()
                &&& old(channel)@.lost_receiver(final(channel)@, *wake)
            },
    {
        match self.try_recv(channel, wake) {
            Ok(value) => Some(value),
            Err(_) => None,
        }
    }
}

/// Constructs a pair of completed sender and receiver.
pub fn completed() -> (pair: (Sender, Receiver))
    ensures
        !pair.0.attached(),
        !pair.1.attached(),
{
    (Sender { attached: false }, Receiver { attached: false })
}

/// Constructs a bounded channel.
pub fn bounded<T, W>(bound: usize) -> (channel: (Channel<T, W>, Sender, Receiver))
    requires
        bound > 0,
    ensures
        channel.0@ == ChannelView::<T, W>::new(bound as nat),
        channel.0@.inv(),
        channel.1.attached(),
        channel.2.attached(),
{
    (Channel::new(bound, bound), Sender { attached: true }, Receiver { attached: true })
}

/// Constructs a unbounded channel.
pub fn unbounded<T, W>(capacity: usize) -> (channel: (Channel<T, W>, Sender, Receiver))
    ensures
        channel.0@ == ChannelView::<T, W>::new(usize::MAX as nat),
        channel.0@.inv(),
        channel.1.attached(),
        channel.2.attached(),
{
    (Channel::new(capacity, usize::MAX), Sender { attached: true }, Receiver { attached: true })
}

/// A drained channel stays drained whatever sender or receiver goes.
pub proof fn law_drained_for_good<T, W, F: Fn(W, Wakeup) -> bool>(
    before: ChannelView<T, W>,
    after: ChannelView<T, W>,
    wake: F,
)
    requires
        before.drained(),
        before.closed_by(after, wake) || before.lost_sender(after, wake) || before.lost_receiver(
            after,
            wake,
        ),
    ensures
        after.drained(),
{
}

/// Whether the waker has been called for this one.
spec fn called<W, F: Fn(W, Wakeup) -> bool>(waker: Waker<W>, wake: F) -> bool {
    match waker {
        Waker::Selector(selector) => exists|waked: bool| #[trigger]
            call_ensures(
                wake,
                (selector.spec_waker(), Wakeup::Select { index: selector.spec_index() }),
                waked,
            ),
        Waker::Resumption(resumption) => exists|waked: bool| #[trigger]
            call_ensures(wake, (resumption, Wakeup::Resume), waked),
    }
}

proof fn lemma_woke_all<W, F: Fn(W, Wakeup) -> bool>(wakers: Seq<Waker<W>>, wake: F, i: int)
    requires
        woke_all(wakers, wake),
        0 <= i < wakers.len(),
    ensures
        called(wakers[i], wake),
{
    assert(wakers[i].told(wake));
    let waked = choose|waked: bool| #[trigger] wakers[i].answered(wake, waked);
    assert(wakers[i].answered(wake, waked));
}

proof fn lemma_woke_one<W, F: Fn(W, Wakeup) -> bool>(
    before: Seq<Waker<W>>,
    after: Seq<Waker<W>>,
    n: int,
    wake: F,
    i: int,
)
    requires
        woke_one(before, after, n, wake),
    ensures
        after.is_suffix_of(before),
        before.len() > 0 ==> after.len() < before.len(),
        0 <= i < before.len() - after.len() ==> called(before[i], wake),
        0 <= i < before.len() - after.len() && before[i] is Resumption ==> i == before.len()
            - after.len() - 1,
        after.len() > 0 ==> 0 <= n < before.len() && before.len() - after.len() == n + 1,
        0 <= i < before.len() - after.len() - 1 && before[i] is Selector ==> call_ensures(
            wake,
            (
                before[i]->Selector_0.spec_waker(),
                Wakeup::Select { index: before[i]->Selector_0.spec_index() },
            ),
            false,
        ),
        after.len() > 0 && before[n] is Selector ==> call_ensures(
            wake,
            (
                before[n]->Selector_0.spec_waker(),
                Wakeup::Select { index: before[n]->Selector_0.spec_index() },
            ),
            true,
        ),
{
    if 0 <= i < n {
        assert(before[i].answered(wake, false));
    }
    if n < before.len() {
        assert(before[n].answered(wake, true));
        assert(after =~= before.subrange(before.len() - after.len(), before.len() as int));
    }
}

/// A channel stays open while a sender is left. When a sender closes, nothing of the channel changes
/// but its number of senders, unless it was the last: then the channel is closed, everyone who waits
/// is woken, and nobody waits any more. Buffered values stay.
pub proof fn law_last_sender_closes<T, W, F: Fn(W, Wakeup) -> bool>(
    sender: &mut Sender,
    channel: &mut Channel<T, W>,
    wake: &F,
    i: int,
)
    requires
        call_ensures(Sender::close::<T, W, F>, (sender, channel, wake), ()),
    ensures
        !final(sender).attached(),
        !old(sender).attached() ==> final(channel)@ == old(channel)@,
        old(sender).attached() && old(channel)@.senders > 0 ==> {
            &&& final(channel)@.senders + 1 == old(channel)@.senders
            &&& final(channel)@.closed == (old(channel)@.closed || final(channel)@.senders == 0)
        },
        final(channel)@.receivers == old(channel)@.receivers,
        final(channel)@.values == old(channel)@.values,
        final(channel)@.bound == old(channel)@.bound,
        !final(channel)@.closed ==> {
            &&& final(channel)@.waiting_senders == old(channel)@.waiting_senders
            &&& final(channel)@.waiting_receivers == old(channel)@.waiting_receivers
        },
        final(channel)@.closed && !old(channel)@.closed ==> {
            &&& final(channel)@.waiting_senders.len() == 0
            &&& final(channel)@.waiting_receivers.len() == 0
            &&& 0 <= i < old(channel)@.waiting_senders.len() ==> {
                &&& old(channel)@.waiting_senders[i] matches Waker::Resumption(resumption) ==> exists|waked: bool| #[trigger]
                    call_ensures(*wake, (resumption, Wakeup::Resume), waked)
                &&& old(channel)@.waiting_senders[i] matches Waker::Selector(selector) ==> exists|waked: bool| #[trigger]
                    call_ensures(
                        *wake,
                        (selector.spec_waker(), Wakeup::Select { index: selector.spec_index() }),
                        waked,
                    )
            }
            &&& 0 <= i < old(channel)@.waiting_receivers.len() ==> {
                &&& old(channel)@.waiting_receivers[i] matches Waker::Resumption(resumption) ==> exists|waked: bool| #[trigger]
                    call_ensures(*wake, (resumption, Wakeup::Resume), waked)
                &&& old(channel)@.waiting_receivers[i] matches Waker::Selector(selector) ==> exists|waked: bool| #[trigger]
                    call_ensures(
                        *wake,
                        (selector.spec_waker(), Wakeup::Select { index: selector.spec_index() }),
                        waked,
                    )
            }
        },
{
    if final(channel)@.closed && !old(channel)@.closed {
        if 0 <= i < old(channel)@.waiting_senders.len() {
            lemma_woke_all(old(channel)@.waiting_senders, *wake, i);
        }
        if 0 <= i < old(channel)@.waiting_receivers.len() {
            lemma_woke_all(old(channel)@.waiting_receivers, *wake, i);
        }
    }
}

/// A channel stays open while a receiver is left, as it does while a sender is.
pub proof fn law_last_receiver_closes<T, W, F: Fn(W, Wakeup) -> bool>(
    receiver: &mut Receiver,
    channel: &mut Channel<T, W>,
    wake: &F,
    i: int,
)
    requires
        call_ensures(Receiver::terminate::<T, W, F>, (receiver, channel, wake), ()),
    ensures
        !final(receiver).attached(),
        !old(receiver).attached() ==> final(channel)@ == old(channel)@,
        old(receiver).attached() && old(channel)@.receivers > 0 ==> {
            &&& final(channel)@.receivers + 1 == old(channel)@.receivers
            &&& final(channel)@.closed == (old(channel)@.closed || final(channel)@.receivers == 0)
        },
        final(channel)@.senders == old(channel)@.senders,
        final(channel)@.values == old(channel)@.values,
        final(channel)@.bound == old(channel)@.bound,
        !final(channel)@.closed ==> {
            &&& final(channel)@.waiting_senders == old(channel)@.waiting_senders
            &&& final(channel)@.waiting_receivers == old(channel)@.waiting_receivers
        },
        final(channel)@.closed && !old(channel)@.closed ==> {
            &&& final(channel)@.waiting_senders.len() == 0
            &&& final(channel)@.waiting_receivers.len() == 0
            &&& 0 <= i < old(channel)@.waiting_senders.len() ==> {
                &&& old(channel)@.waiting_senders[i] matches Waker::Resumption(resumption) ==> exists|waked: bool| #[trigger]
                    call_ensures(*wake, (resumption, Wakeup::Resume), waked)
                &&& old(channel)@.waiting_senders[i] matches Waker::Selector(selector) ==> exists|waked: bool| #[trigger]
                    call_ensures(
                        *wake,
                        (selector.spec_waker(), Wakeup::Select { index: selector.spec_index() }),
                        waked,
                    )
            }
            &&& 0 <= i < old(channel)@.waiting_receivers.len() ==> {
                &&& old(channel)@.waiting_receivers[i] matches Waker::Resumption(resumption) ==> exists|waked: bool| #[trigger]
                    call_ensures(*wake, (resumption, Wakeup::Resume), waked)
                &&& old(channel)@.waiting_receivers[i] matches Waker::Selector(selector) ==> exists|waked: bool| #[trigger]
                    call_ensures(
                        *wake,
                        (selector.spec_waker(), Wakeup::Select { index: selector.spec_index() }),
                        waked,
                    )
            }
        },
{
    if final(channel)@.closed && !old(channel)@.closed {
        if 0 <= i < old(channel)@.waiting_senders.len() {
            lemma_woke_all(old(channel)@.waiting_senders, *wake, i);
        }
        if 0 <= i < old(channel)@.waiting_receivers.len() {
            lemma_woke_all(old(channel)@.waiting_receivers, *wake, i);
        }
    }
}

/// A receiver that closes the channel wakes everyone who waits, keeps the buffered values, and can
/// go on to receive these.
pub proof fn law_close_wakes_everyone<T, W, F: Fn(W, Wakeup) -> bool>(
    receiver: &mut Receiver,
    channel: &mut Channel<T, W>,
    wake: &F,
    i: int,
)
    requires
        call_ensures(Receiver::close::<T, W, F>, (receiver, channel, wake), ()),
        old(receiver).attached(),
    ensures
        final(receiver).attached(),
        final(channel)@.closed,
        final(channel)@.values == old(channel)@.values,
        final(channel)@.senders == old(channel)@.senders,
        final(channel)@.receivers == old(channel)@.receivers,
        final(channel)@.bound == old(channel)@.bound,
        final(channel)@.waiting_senders.len() == 0,
        final(channel)@.waiting_receivers.len() == 0,
        0 <= i < old(channel)@.waiting_senders.len() ==> {
            &&& old(channel)@.waiting_senders[i] matches Waker::Resumption(resumption) ==> exists|waked: bool| #[trigger]
                call_ensures(*wake, (resumption, Wakeup::Resume), waked)
            &&& old(channel)@.waiting_senders[i] matches Waker::Selector(selector) ==> exists|waked: bool| #[trigger]
                call_ensures(
                    *wake,
                    (selector.spec_waker(), Wakeup::Select { index: selector.spec_index() }),
                    waked,
                )
        },
        0 <= i < old(channel)@.waiting_receivers.len() ==> {
            &&& old(channel)@.waiting_receivers[i] matches Waker::Resumption(resumption) ==> exists|waked: bool| #[trigger]
                call_ensures(*wake, (resumption, Wakeup::Resume), waked)
            &&& old(channel)@.waiting_receivers[i] matches Waker::Selector(selector) ==> exists|waked: bool| #[trigger]
                call_ensures(
                    *wake,
                    (selector.spec_waker(), Wakeup::Select { index: selector.spec_index() }),
                    waked,
                )
        },
{
    if 0 <= i < old(channel)@.waiting_senders.len() {
        lemma_woke_all(old(channel)@.waiting_senders, *wake, i);
    }
    if 0 <= i < old(channel)@.waiting_receivers.len() {
        lemma_woke_all(old(channel)@.waiting_receivers, *wake, i);
    }
}

/// A send succeeds if and only if the sender is not closed, the channel is open, and there is room.
/// It waits if and only if all that is missing is room. Otherwise the value is given back, and the
/// sender is closed. A value that was sent is the last one, and one who waits for a value is woken:
/// the first, or the next ones while a selection refuses.
pub proof fn law_send<T, W, F: Fn(W, Wakeup) -> bool>(
    sender: &mut Sender,
    channel: &mut Channel<T, W>,
    value: T,
    wake: &F,
    sending: Sending<T>,
    i: int,
)
    requires
        call_ensures(Sender::send::<T, W, F>, (sender, channel, value, wake), sending),
        old(channel)@.senders > 0,
    ensures
        sending == Sending::<T>::Done(Ok(())) <==> old(sender).attached() && !old(channel)@.closed
            && old(channel)@.values.len() != old(channel)@.bound,
        sending is Wait <==> old(sender).attached() && !old(channel)@.closed
            && old(channel)@.values.len() == old(channel)@.bound,
        sending is Wait ==> sending->value == value && final(channel)@ == old(channel)@,
        sending matches Sending::Done(Err(err)) ==> err == SendError::Closed(value) && !final(sender).attached() && (old(sender).attached() ==> final(channel)@.senders + 1 == old(channel)@.senders),
        !(sending matches Sending::Done(Err(_))) ==> final(sender).attached()
            && final(channel)@.senders == old(channel)@.senders,
        final(channel)@.values == if sending == Sending::<T>::Done(Ok(())) {
            old(channel)@.values.push(value)
        } else {
            old(channel)@.values
        },
        final(channel)@.closed == old(channel)@.closed,
        final(channel)@.bound == old(channel)@.bound,
        final(channel)@.receivers == old(channel)@.receivers,
        sending == Sending::<T>::Done(Ok(())) ==> {
            let before = old(channel)@.waiting_receivers;
            let after = final(channel)@.waiting_receivers;
            &&& final(channel)@.waiting_senders == old(channel)@.waiting_senders
            &&& after.is_suffix_of(before)
            &&& before.len() > 0 ==> after.len() < before.len()
            &&& 0 <= i < before.len() - after.len() ==> {
                &&& before[i] matches Waker::Resumption(resumption) ==> exists|waked: bool| #[trigger]
                    call_ensures(*wake, (resumption, Wakeup::Resume), waked)
                &&& before[i] matches Waker::Selector(selector) ==> exists|waked: bool| #[trigger]
                    call_ensures(
                        *wake,
                        (selector.spec_waker(), Wakeup::Select { index: selector.spec_index() }),
                        waked,
                    )
            }
            &&& before.len() > 0 && before[0] is Resumption ==> after.len() + 1 == before.len()
        },
{
    if sending == Sending::<T>::Done(Ok(())) {
        let before = old(channel)@.waiting_receivers;
        let after = final(channel)@.waiting_receivers;
        let n = choose|n: int| #[trigger] woke_one(before, after, n, *wake);
        lemma_woke_one(before, after, n, *wake, i);
        lemma_woke_one(before, after, n, *wake, 0);
    }
}

/// To try to send is to send, but for a full channel, where it gives the value back in place of
/// waiting, and the sender is as good as before. A permit to send is used in the same way.
pub proof fn law_try_send<T, W, F: Fn(W, Wakeup) -> bool>(
    sender: &mut Sender,
    channel: &mut Channel<T, W>,
    value: T,
    wake: &F,
    result: Result<(), TrySendError<T>>,
    permitted: &mut Sender,
    target: &mut Channel<T, W>,
    permit: Permit,
    consumed: Result<(), SendError<T>>,
)
    requires
        call_ensures(Sender::try_send::<T, W, F>, (sender, channel, value, wake), result),
        call_ensures(
            Sender::consume_permit::<T, W, F>,
            (permitted, target, permit, value, wake),
            consumed,
        ),
        old(channel)@.senders > 0,
        old(target)@.senders > 0,
    ensures
        result is Ok <==> old(sender).attached() && !old(channel)@.closed
            && old(channel)@.values.len() != old(channel)@.bound,
        result matches Err(TrySendError::Full(back)) ==> {
            &&& back == value
            &&& old(sender).attached()
            &&& !old(channel)@.closed
            &&& old(channel)@.values.len() == old(channel)@.bound
            &&& final(sender).attached()
            &&& final(channel)@ == old(channel)@
        },
        result matches Err(TrySendError::Closed(back)) ==> {
            &&& back == value
            &&& !old(sender).attached() || old(channel)@.closed
            &&& !final(sender).attached()
        },
        result is Ok ==> {
            &&& final(sender).attached()
            &&& final(channel)@.values == old(channel)@.values.push(value)
            &&& final(channel)@.senders == old(channel)@.senders
        },
        result is Err ==> final(channel)@.values == old(channel)@.values,
        final(channel)@.closed == old(channel)@.closed,
        consumed is Ok <==> old(permitted).attached() && !old(target)@.closed,
        consumed is Ok ==> final(target)@.values == old(target)@.values.push(value) && final(permitted).attached(),
        consumed matches Err(SendError::Closed(back)) ==> back == value && final(target)@.values
            == old(target)@.values && !final(permitted).attached(),
{
}

/// A receive gives the first value if the receiver is not terminated and there is one, gives nothing
/// if it is terminated, or if the channel is closed and has no value, and is terminated then. It
/// waits otherwise. When a value was taken, one who waits for room is woken.
pub proof fn law_recv<T, W, F: Fn(W, Wakeup) -> bool>(
    receiver: &mut Receiver,
    channel: &mut Channel<T, W>,
    wake: &F,
    receiving: Receiving<T>,
    i: int,
)
    requires
        call_ensures(Receiver::recv::<T, W, F>, (receiver, channel, wake), receiving),
        old(channel)@.receivers > 0,
    ensures
        (receiving matches Receiving::Done(Some(_))) <==> old(receiver).attached()
            && old(channel)@.values.len() > 0,
        receiving matches Receiving::Done(Some(value)) ==> {
            &&& old(channel)@.values == seq![value] + final(channel)@.values
            &&& final(receiver).attached()
            &&& final(channel)@.receivers == old(channel)@.receivers
        },
        receiving is Wait <==> old(receiver).attached() && old(channel)@.values.len() == 0
            && !old(channel)@.closed,
        receiving is Wait ==> final(channel)@ == old(channel)@ && final(receiver).attached(),
        receiving == Receiving::<T>::Done(None) ==> {
            &&& !final(receiver).attached()
            &&& final(channel)@.values == old(channel)@.values
            &&& old(receiver).attached() ==> final(channel)@.receivers + 1
                == old(channel)@.receivers
        },
        final(channel)@.closed == old(channel)@.closed,
        final(channel)@.bound == old(channel)@.bound,
        final(channel)@.senders == old(channel)@.senders,
        receiving matches Receiving::Done(Some(_)) ==> {
            let before = old(channel)@.waiting_senders;
            let after = final(channel)@.waiting_senders;
            &&& final(channel)@.waiting_receivers == old(channel)@.waiting_receivers
            &&& after.is_suffix_of(before)
            &&& before.len() > 0 ==> after.len() < before.len()
            &&& 0 <= i < before.len() - after.len() ==> {
                &&& before[i] matches Waker::Resumption(resumption) ==> exists|waked: bool| #[trigger]
                    call_ensures(*wake, (resumption, Wakeup::Resume), waked)
                &&& before[i] matches Waker::Selector(selector) ==> exists|waked: bool| #[trigger]
                    call_ensures(
                        *wake,
                        (selector.spec_waker(), Wakeup::Select { index: selector.spec_index() }),
                        waked,
                    )
            }
            &&& before.len() > 0 && before[0] is Resumption ==> after.len() + 1 == before.len()
        },
{
    if old(channel)@.values.len() > 0 {
        assert(old(channel)@.values =~= seq![old(channel)@.values[0]]
            + old(channel)@.values.skip(1));
    }
    if receiving matches Receiving::Done(Some(_)) {
        let before = old(channel)@.waiting_senders;
        let after = final(channel)@.waiting_senders;
        let n = choose|n: int| #[trigger] woke_one(before, after, n, *wake);
        lemma_woke_one(before, after, n, *wake, i);
        lemma_woke_one(before, after, n, *wake, 0);
    }
}

/// To try to receive is to receive, but for an open channel without values, where it says so in
/// place of waiting. A permit to receive is used in the same way.
pub proof fn law_try_recv<T, W, F: Fn(W, Wakeup) -> bool>(
    receiver: &mut Receiver,
    channel: &mut Channel<T, W>,
    wake: &F,
    result: Result<T, TryRecvError>,
    permitted: &mut Receiver,
    source: &mut Channel<T, W>,
    permit: Permit,
    consumed: Option<T>,
)
    requires
        call_ensures(Receiver::try_recv::<T, W, F>, (receiver, channel, wake), result),
        call_ensures(
            Receiver::consume_permit::<T, W, F>,
            (permitted, source, permit, wake),
            consumed,
        ),
    ensures
        result is Ok <==> old(receiver).attached() && old(channel)@.values.len() > 0,
        result matches Ok(value) ==> {
            &&& old(channel)@.values == seq![value] + final(channel)@.values
            &&& final(receiver).attached()
        },
        result == Err::<T, _>(TryRecvError::Empty) <==> old(receiver).attached()
            && old(channel)@.values.len() == 0 && !old(channel)@.closed,
        result == Err::<T, _>(TryRecvError::Empty) ==> final(receiver).attached()
            && final(channel)@ == old(channel)@,
        result == Err::<T, _>(TryRecvError::Closed) ==> !final(receiver).attached(),
        result is Err ==> final(channel)@.values == old(channel)@.values,
        consumed is Some <==> old(permitted).attached() && old(source)@.values.len() > 0,
        consumed matches Some(value) ==> {
            &&& old(source)@.values == seq![value] + final(source)@.values
            &&& final(permitted).attached()
        },
        consumed is None ==> !final(permitted).attached() && final(source)@.values
            == old(source)@.values,
{
    if old(channel)@.values.len() > 0 {
        assert(old(channel)@.values =~= seq![old(channel)@.values[0]]
            + old(channel)@.values.skip(1));
    }
    if old(source)@.values.len() > 0 {
        assert(old(source)@.values =~= seq![old(source)@.values[0]] + old(source)@.values.skip(1));
    }
}

/// A sender has a permit exactly when its next send would not wait, and is completed exactly when it
/// is closed.
pub proof fn law_sender_permit<T, W, F: Fn(W, Wakeup) -> bool>(
    asking: &Sender,
    asked: &Channel<T, W>,
    permit: Result<Permit, TrySelectError>,
    sender: &mut Sender,
    channel: &mut Channel<T, W>,
    value: T,
    wake: &F,
    sending: Sending<T>,
)
    requires
        call_ensures(Sender::select_permit::<T, W>, (asking, asked), permit),
        call_ensures(Sender::send::<T, W, F>, (sender, channel, value, wake), sending),
        *asking == *old(sender),
        asked@ == old(channel)@,
    ensures
        permit is Ok <==> old(sender).attached() && !(sending is Wait),
        permit == Err::<Permit, _>(TrySelectError::WouldBlock) <==> sending is Wait,
        permit == Err::<Permit, _>(TrySelectError::Completed) <==> !old(sender).attached(),
{
}

/// A receiver has a permit exactly when its next receive would not wait, and is completed exactly
/// when it is terminated.
pub proof fn law_receiver_permit<T, W, F: Fn(W, Wakeup) -> bool>(
    asking: &Receiver,
    asked: &Channel<T, W>,
    permit: Result<Permit, TrySelectError>,
    receiver: &mut Receiver,
    channel: &mut Channel<T, W>,
    wake: &F,
    receiving: Receiving<T>,
)
    requires
        call_ensures(Receiver::select_permit::<T, W>, (asking, asked), permit),
        call_ensures(Receiver::recv::<T, W, F>, (receiver, channel, wake), receiving),
        *asking == *old(receiver),
        asked@ == old(channel)@,
    ensures
        permit is Ok <==> old(receiver).attached() && !(receiving is Wait),
        permit == Err::<Permit, _>(TrySelectError::WouldBlock) <==> receiving is Wait,
        permit == Err::<Permit, _>(TrySelectError::Completed) <==> !old(receiver).attached(),
{
}

/// A selection that stops watching leaves no trace, if nothing else of it watches the same side, and
/// keeps its turn behind those who came before until then.
pub proof fn law_unwatch_undoes_watch<T, W>(
    sender: &Sender,
    sending: &mut Channel<T, W>,
    unsending: &mut Channel<T, W>,
    receiver: &Receiver,
    receiving: &mut Channel<T, W>,
    unreceiving: &mut Channel<T, W>,
    selector: Selector<W>,
    identifier: &Identifier,
    watched: (bool, bool),
)
    requires
        call_ensures(Sender::watch_permit::<T, W>, (sender, sending, selector), watched.0),
        call_ensures(Sender::unwatch_permit::<T, W>, (sender, unsending, identifier), ()),
        call_ensures(Receiver::watch_permit::<T, W>, (receiver, receiving, selector), watched.1),
        call_ensures(Receiver::unwatch_permit::<T, W>, (receiver, unreceiving, identifier), ()),
        final(sending)@ == old(unsending)@,
        final(receiving)@ == old(unreceiving)@,
        selector.spec_identifier() == identifier@,
        forall|i: int|
            0 <= i < old(sending)@.waiting_senders.len() ==> !((
            #[trigger] old(sending)@.waiting_senders[i]) matches Waker::Selector(other)
                && other.spec_identifier() == identifier@),
        forall|i: int|
            0 <= i < old(receiving)@.waiting_receivers.len() ==> !((
            #[trigger] old(receiving)@.waiting_receivers[i]) matches Waker::Selector(other)
                && other.spec_identifier() == identifier@),
    ensures
        watched.0 == sender.attached(),
        watched.1 == receiver.attached(),
        watched.0 ==> final(sending)@.waiting_senders == old(sending)@.waiting_senders.push(
            Waker::Selector(selector),
        ),
        watched.1 ==> final(receiving)@.waiting_receivers == old(receiving)@.waiting_receivers.push(Waker::Selector(selector)),
        final(unsending)@ == old(sending)@,
        final(unreceiving)@ == old(receiving)@,
{
    if sender.attached() {
        let watching = final(sending)@.waiting_senders;
        let n = old(sending)@.waiting_senders.len() as int;
        assert(watching[n].spec_matches(identifier@));
        assert forall|i: int| 0 <= i < n implies !(#[trigger] watching[i]).spec_matches(
            identifier@,
        ) by {
            assert(watching[i] == old(sending)@.waiting_senders[i]);
        }
        assert(watching.remove(n) =~= old(sending)@.waiting_senders);
        assert(final(unsending)@.waiting_senders =~= old(sending)@.waiting_senders);
    }
    if receiver.attached() {
        let watching = final(receiving)@.waiting_receivers;
        let n = old(receiving)@.waiting_receivers.len() as int;
        assert(watching[n].spec_matches(identifier@));
        assert forall|i: int| 0 <= i < n implies !(#[trigger] watching[i]).spec_matches(
            identifier@,
        ) by {
            assert(watching[i] == old(receiving)@.waiting_receivers[i]);
        }
        assert(watching.remove(n) =~= old(receiving)@.waiting_receivers);
        assert(final(unreceiving)@.waiting_receivers =~= old(receiving)@.waiting_receivers);
    }
}

/// Another sender or receiver of an open end is one more that keeps the channel open, and nothing
/// else changes. Of a closed end there is only another closed one.
pub proof fn law_another_is_one_more<T, W>(
    sender: &Sender,
    sending: &mut Channel<T, W>,
    other: Sender,
    receiver: &Receiver,
    receiving: &mut Channel<T, W>,
    another: Receiver,
)
    requires
        call_ensures(Sender::another::<T, W>, (sender, sending), other),
        call_ensures(Receiver::another::<T, W>, (receiver, receiving), another),
    ensures
        other.attached() == sender.attached(),
        another.attached() == receiver.attached(),
        final(sending)@.senders == old(sending)@.senders + if sender.attached() {
            1int
        } else {
            0
        },
        final(receiving)@.receivers == old(receiving)@.receivers + if receiver.attached() {
            1int
        } else {
            0
        },
        final(sending)@ == (ChannelView {
            senders: final(sending)@.senders,
            ..old(sending)@
        }),
        final(receiving)@ == (ChannelView {
            receivers: final(receiving)@.receivers,
            ..old(receiving)@
        }),
{
}

/// A new channel is open and empty, with one sender and one receiver, and has the bound that was
/// asked for, or none but that of memory.
pub proof fn law_new_channel<T, W>(
    bound: usize,
    bounded_channel: (Channel<T, W>, Sender, Receiver),
    unbounded_channel: (Channel<T, W>, Sender, Receiver),
)
    requires
        call_ensures(bounded::<T, W>, (bound,), bounded_channel),
        call_ensures(unbounded::<T, W>, (bound,), unbounded_channel),
    ensures
        bounded_channel.0@.bound == bound,
        unbounded_channel.0@.bound == usize::MAX,
        bounded_channel.1.attached() && bounded_channel.2.attached(),
        unbounded_channel.1.attached() && unbounded_channel.2.attached(),
        !bounded_channel.0@.closed && !unbounded_channel.0@.closed,
        bounded_channel.0@.values.len() == 0 && unbounded_channel.0@.values.len() == 0,
        bounded_channel.0@.senders == 1 && bounded_channel.0@.receivers == 1,
        unbounded_channel.0@.senders == 1 && unbounded_channel.0@.receivers == 1,
        bounded_channel.0@.waiting_senders.len() == 0,
        bounded_channel.0@.waiting_receivers.len() == 0,
        unbounded_channel.0@.waiting_senders.len() == 0,
        unbounded_channel.0@.waiting_receivers.len() == 0,
{
}

/// Who has to wait gets in line behind those who wait already.
pub proof fn law_waits_in_line<T, W>(
    sending: &mut Channel<T, W>,
    receiving: &mut Channel<T, W>,
    resumption: W,
)
    requires
        call_ensures(Channel::<T, W>::queue_sender, (sending, resumption), ()),
        call_ensures(Channel::<T, W>::queue_receiver, (receiving, resumption), ()),
    ensures
        final(sending)@.waiting_senders == old(sending)@.waiting_senders.push(
            Waker::Resumption(resumption),
        ),
        final(receiving)@.waiting_receivers == old(receiving)@.waiting_receivers.push(
            Waker::Resumption(resumption),
        ),
        final(sending)@ == (ChannelView {
            waiting_senders: final(sending)@.waiting_senders,
            ..old(sending)@
        }),
        final(receiving)@ == (ChannelView {
            waiting_receivers: final(receiving)@.waiting_receivers,
            ..old(receiving)@
        }),
{
}
/// A sender says that it is closed, and a receiver that it is drained, once it has left its channel
/// and not before. Completed ones never had any. Only the same task wakes who watches them.
pub proof fn law_says_when_gone<T, W, F: Fn(W, Wakeup) -> bool>(
    bound: usize,
    new: (Channel<T, W>, Sender, Receiver),
    completed: (Sender, Receiver),
    sender: &mut Sender,
    sending: &mut Channel<T, W>,
    receiver: &mut Receiver,
    receiving: &mut Channel<T, W>,
    wake: &F,
    closed: (bool, bool, bool),
    drained: (bool, bool, bool),
    parallel: (bool, bool),
)
    requires
        call_ensures(bounded::<T, W>, (bound,), new),
        call_ensures(self::completed, (), completed),
        call_ensures(Sender::is_closed, (&new.1,), closed.0),
        call_ensures(Receiver::is_drained, (&new.2,), drained.0),
        call_ensures(Sender::parallel, (&new.1,), parallel.0),
        call_ensures(Receiver::parallel, (&new.2,), parallel.1),
        *old(sender) == new.1,
        call_ensures(Sender::close::<T, W, F>, (sender, sending, wake), ()),
        call_ensures(Sender::is_closed, (final(sender),), closed.1),
        *old(receiver) == new.2,
        call_ensures(Receiver::terminate::<T, W, F>, (receiver, receiving, wake), ()),
        call_ensures(Receiver::is_drained, (final(receiver),), drained.1),
        call_ensures(Sender::is_closed, (&completed.0,), closed.2),
        call_ensures(Receiver::is_drained, (&completed.1,), drained.2),
    ensures
        closed == (false, true, true),
        drained == (false, true, true),
        parallel == (false, false),
{
}

/// A send would not block where there is room or the channel is closed, and a receive where there is
/// a value or the channel is closed.
pub proof fn law_says_what_blocks<T, W>(
    channel: &Channel<T, W>,
    sendable: bool,
    recvable: bool,
)
    requires
        channel@.values.len() <= channel@.bound,
        call_ensures(Channel::<T, W>::is_sendable, (channel,), sendable),
        call_ensures(Channel::<T, W>::is_recvable, (channel,), recvable),
    ensures
        sendable <==> channel@.closed || channel@.values.len() < channel@.bound,
        recvable <==> channel@.closed || channel@.values.len() > 0,
{
}

/// Unwatching takes away the first sender of the selection that waits, and no other. Where none of
/// the selection waits, nothing changes.
pub proof fn law_unwatch_takes_first_sender<T, W>(
    sender: &Sender,
    channel: &mut Channel<T, W>,
    identifier: &Identifier,
    n: int,
)
    requires
        sender.attached(),
        call_ensures(Sender::unwatch_permit::<T, W>, (sender, channel, identifier), ()),
        0 <= n <= old(channel)@.waiting_senders.len(),
        forall|i: int|
            0 <= i < n ==> !((#[trigger] old(channel)@.waiting_senders[i]) matches Waker::Selector(
                selector,
            ) && selector.spec_identifier() == identifier@),
        n < old(channel)@.waiting_senders.len() ==> (
        old(channel)@.waiting_senders[n] matches Waker::Selector(selector)
            && selector.spec_identifier() == identifier@),
    ensures
        n == old(channel)@.waiting_senders.len() ==> final(channel)@ == old(channel)@,
        n < old(channel)@.waiting_senders.len() ==> final(channel)@ == (ChannelView {
            waiting_senders: old(channel)@.waiting_senders.remove(n),
            ..old(channel)@
        }),
{
    let before = old(channel)@;
    assert forall|i: int| 0 <= i < n implies !(#[trigger] before.waiting_senders[i]).spec_matches(
        identifier@,
    ) by {
    }
    if n < before.waiting_senders.len() {
        assert(before.waiting_senders[n].spec_matches(identifier@));
    }
}

/// Unwatching takes away the first receiver of the selection that waits, and no other. Where none of
/// the selection waits, nothing changes.
pub proof fn law_unwatch_takes_first_receiver<T, W>(
    receiver: &Receiver,
    channel: &mut Channel<T, W>,
    identifier: &Identifier,
    n: int,
)
    requires
        receiver.attached(),
        call_ensures(Receiver::unwatch_permit::<T, W>, (receiver, channel, identifier), ()),
        0 <= n <= old(channel)@.waiting_receivers.len(),
        forall|i: int|
            0 <= i < n ==> !((#[trigger] old(channel)@.waiting_receivers[i]) matches Waker::Selector(
                selector,
            ) && selector.spec_identifier() == identifier@),
        n < old(channel)@.waiting_receivers.len() ==> (
        old(channel)@.waiting_receivers[n] matches Waker::Selector(selector)
            && selector.spec_identifier() == identifier@),
    ensures
        n == old(channel)@.waiting_receivers.len() ==> final(channel)@ == old(channel)@,
        n < old(channel)@.waiting_receivers.len() ==> final(channel)@ == (ChannelView {
            waiting_receivers: old(channel)@.waiting_receivers.remove(n),
            ..old(channel)@
        }),
{
    let before = old(channel)@;
    assert forall|i: int| 0 <= i < n implies !(#[trigger] before.waiting_receivers[i]).spec_matches(
        identifier@,
    ) by {
    }
    if n < before.waiting_receivers.len() {
        assert(before.waiting_receivers[n].spec_matches(identifier@));
    }
}

} // verus!
