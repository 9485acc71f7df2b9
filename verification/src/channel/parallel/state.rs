//! State of a channel under its lock.

use std::collections::VecDeque;

use vstd::prelude::*;

use crate::channel::error::{SendError, TryRecvError, TrySendError};
use crate::channel::order::{Event, Held};
use crate::channel::shared::Permit;
use crate::select::{Identifier, Selector};

verus! {

/// A blocked sender.
///
/// `W` wakes the session or thread that waits.
pub enum Waiter<T, W> {
    Task { waker: W, value: T },
    Thread { waker: W, value: T },
    Selector { selector: Selector<W> },
}

/// A blocked receiver.
pub enum RecvWaiter<W> {
    Selector { selector: Selector<W> },
    Receiver { session: W },
}

/// What a waiter is woken with.
pub enum Wakeup<T> {
    /// A blocked send has come to its end.
    Sent(Result<(), SendError<T>>),
    /// A blocked receive has a permit.
    Permit(Permit),
    /// The candidate at `index` of a selection has a permit.
    Select { index: usize, permit: Permit },
}

impl<T, W> Waiter<T, W> {
    pub open spec fn spec_matches(&self, identifier: u64) -> bool {
        self matches Waiter::Selector { selector } && selector.spec_identifier() == identifier
    }

    /// Whether `wake` may have refused to wake this waiter for sending.
    pub open spec fn refused<F: Fn(W, Wakeup<T>) -> bool>(&self, wake: F) -> bool {
        match self {
            Waiter::Task { waker, value: _ } => call_ensures(
                wake,
                (*waker, Wakeup::Sent(Ok(()))),
                false,
            ),
            Waiter::Thread { .. } => false,
            Waiter::Selector { selector } => call_ensures(
                wake,
                (
                    selector.spec_waker(),
                    Wakeup::Select { index: selector.spec_index(), permit: Permit::Consume },
                ),
                false,
            ),
        }
    }

    /// Whether `wake` may have woken this waiter for sending. A thread has no way to refuse.
    pub open spec fn accepted<F: Fn(W, Wakeup<T>) -> bool>(&self, wake: F) -> bool {
        match self {
            Waiter::Task { waker, value: _ } => call_ensures(
                wake,
                (*waker, Wakeup::Sent(Ok(()))),
                true,
            ),
            Waiter::Thread { waker, value: _ } => told(wake, *waker, Wakeup::Sent(Ok(()))),
            Waiter::Selector { selector } => call_ensures(
                wake,
                (
                    selector.spec_waker(),
                    Wakeup::Select { index: selector.spec_index(), permit: Permit::Consume },
                ),
                true,
            ),
        }
    }

    /// Whether `wake` has been told that this waiter's channel is closed.
    pub open spec fn told_closed<F: Fn(W, Wakeup<T>) -> bool>(&self, wake: F) -> bool {
        match self {
            Waiter::Task { waker, value } => told(
                wake,
                *waker,
                Wakeup::Sent(Err(SendError::Closed(*value))),
            ),
            Waiter::Thread { waker, value } => told(
                wake,
                *waker,
                Wakeup::Sent(Err(SendError::Closed(*value))),
            ),
            Waiter::Selector { selector } => told(
                wake,
                selector.spec_waker(),
                Wakeup::Select { index: selector.spec_index(), permit: Permit::Closed },
            ),
        }
    }

    /// Checks whether this waiter belongs to the identified selection.
    pub fn matches(&self, identifier: &Identifier) -> (matched: bool)
        ensures
            matched == self.spec_matches(identifier@),
    {
        if let Waiter::Selector { selector } = self {
            selector.identify(identifier)
        } else {
            false
        }
    }
}

impl<W> RecvWaiter<W> {
    pub open spec fn spec_matches(&self, identifier: u64) -> bool {
        self matches RecvWaiter::Selector { selector } && selector.spec_identifier() == identifier
    }

    pub open spec fn spec_waker(&self) -> W {
        match self {
            RecvWaiter::Selector { selector } => selector.spec_waker(),
            RecvWaiter::Receiver { session } => *session,
        }
    }

    /// What this waiter is woken with.
    pub open spec fn spec_wakeup<T>(&self, permit: Permit) -> Wakeup<T> {
        match self {
            RecvWaiter::Selector { selector } => Wakeup::Select {
                index: selector.spec_index(),
                permit,
            },
            RecvWaiter::Receiver { session: _ } => Wakeup::Permit(permit),
        }
    }

    /// Checks whether this waiter belongs to the identified selection.
    pub fn matches(&self, identifier: &Identifier) -> (matched: bool)
        ensures
            matched == self.spec_matches(identifier@),
    {
        if let RecvWaiter::Selector { selector } = self {
            selector.identify(identifier)
        } else {
            false
        }
    }

    fn wake<T, F: Fn(W, Wakeup<T>) -> bool>(self, permit: Permit, wake: &F) -> (waked: bool)
        requires
            forall|waker: W, wakeup: Wakeup<T>| #[trigger] call_requires(*wake, (waker, wakeup)),
        ensures
            call_ensures(*wake, (self.spec_waker(), self.spec_wakeup::<T>(permit)), waked),
    {
        match self {
            RecvWaiter::Selector { selector } => {
                let (waker, (index, _)) = selector.apply(permit.into_select());
                wake(waker, Wakeup::Select { index, permit })
            },
            RecvWaiter::Receiver { session } => wake(session, Wakeup::Permit(permit)),
        }
    }
}

/// Whether `wake` has been called.
pub open spec fn told<W, M, F: Fn(W, M) -> bool>(wake: F, waker: W, wakeup: M) -> bool {
    exists|waked: bool| #[trigger] call_ensures(wake, (waker, wakeup), waked)
}

/// How many values a channel may buffer.
#[derive(Debug, Clone, Copy)]
pub struct Capacity {
    min: usize,
    max: usize,
}

impl Capacity {
    /// Room to reserve from the start.
    pub closed spec fn spec_min(&self) -> usize {
        self.min
    }

    /// Most values to buffer.
    pub closed spec fn spec_max(&self) -> usize {
        self.max
    }

    /// Capacity of a channel that blocks its senders when `capacity` values are buffered.
    pub fn bounded(capacity: usize) -> (bounded: Capacity)
        requires
            capacity > 0,
        ensures
            bounded.spec_min() == capacity,
            bounded.spec_max() == capacity,
    {
        Capacity { min: capacity, max: capacity }
    }

    /// Capacity of a channel that does not block its senders.
    pub fn unbounded(initial_capacity: usize) -> (unbounded: Capacity)
        ensures
            unbounded.spec_min() == initial_capacity,
            unbounded.spec_max() == usize::MAX,
    {
        Capacity { min: initial_capacity, max: usize::MAX }
    }
}

/// State of a channel under its lock.
#[verifier::ext_equal]
pub struct StateView<T, W> {
    pub closed: bool,
    /// Selected senders that have not sent yet. Each has room reserved.
    pub send_permits: nat,
    /// Receivers with a permit that have not received yet.
    pub recv_permits: nat,
    pub bound: nat,
    pub values: Seq<T>,
    pub senders: Seq<Waiter<T, W>>,
    pub receivers: Seq<RecvWaiter<W>>,
}

impl<T, W> StateView<T, W> {
    /// Values that are or will be in the channel without anyone else asking.
    pub open spec fn recvable_len(self) -> nat {
        self.values.len() + self.send_permits
    }

    pub open spec fn full(self) -> bool {
        self.recvable_len() == self.bound
    }

    /// Whether there is no value for a receiver without permit.
    pub open spec fn empty(self) -> bool {
        self.recv_permits >= self.values.len()
    }

    /// A closed channel still takes the values of permits.
    pub open spec fn held(self) -> Held<T> {
        Held { values: self.values, open: !self.closed || self.send_permits > 0 }
    }

    /// Whether no value will ever come again.
    pub open spec fn drained(self) -> bool {
        self.closed && self.recvable_len() == 0
    }

    /// The bound is kept, permits of an open channel are backed by values, senders wait only while
    /// an open channel is full, and receivers only while a value may come.
    pub open spec fn inv(self) -> bool {
        &&& 0 < self.bound
        &&& self.recvable_len() <= self.bound
        &&& !self.closed ==> self.recv_permits <= self.values.len()
        &&& self.senders.len() > 0 ==> !self.closed && self.full()
        &&& self.receivers.len() > 0 ==> !self.drained()
    }

    pub open spec fn after_accept(self, waiter: Waiter<T, W>) -> Self {
        match waiter {
            Waiter::Task { waker: _, value } => StateView {
                values: self.values.push(value),
                ..self
            },
            Waiter::Thread { waker: _, value } => StateView {
                values: self.values.push(value),
                ..self
            },
            Waiter::Selector { selector: _ } => StateView {
                send_permits: self.send_permits + 1,
                ..self
            },
        }
    }

    /// Whether room for one value has been offered to the waiting senders in turn, up to the
    /// `n`-th, who took it, or to all of them in vain.
    pub open spec fn offered_room<F: Fn(W, Wakeup<T>) -> bool>(
        self,
        after: Self,
        n: int,
        wake: F,
    ) -> bool {
        &&& 0 <= n <= self.senders.len()
        &&& forall|i: int| 0 <= i < n ==> (#[trigger] self.senders[i]).refused(wake)
        &&& if n < self.senders.len() {
            &&& self.senders[n].accepted(wake)
            &&& after == (StateView {
                senders: self.senders.skip(n + 1),
                ..self.after_accept(self.senders[n])
            })
        } else {
            after == (StateView { senders: Seq::empty(), ..self })
        }
    }

    /// Whether one value has been offered to the waiting receivers in turn, up to the `n`-th, who
    /// took a permit for it, or to all of them in vain.
    pub open spec fn offered_value<F: Fn(W, Wakeup<T>) -> bool>(
        self,
        after: Self,
        n: int,
        wake: F,
    ) -> bool {
        &&& 0 <= n <= self.receivers.len()
        &&& forall|i: int|
            0 <= i < n ==> call_ensures(
                wake,
                (
                    (#[trigger] self.receivers[i]).spec_waker(),
                    self.receivers[i].spec_wakeup::<T>(Permit::Consume),
                ),
                false,
            )
        &&& if n < self.receivers.len() {
            &&& call_ensures(
                wake,
                (
                    self.receivers[n].spec_waker(),
                    self.receivers[n].spec_wakeup::<T>(Permit::Consume),
                ),
                true,
            )
            &&& after == (StateView {
                receivers: self.receivers.skip(n + 1),
                recv_permits: self.recv_permits + 1,
                ..self
            })
        } else {
            after == (StateView { receivers: Seq::empty(), ..self })
        }
    }

    pub open spec fn told_receivers_closed<F: Fn(W, Wakeup<T>) -> bool>(self, wake: F) -> bool {
        forall|i: int|
            0 <= i < self.receivers.len() ==> told(
                wake,
                (#[trigger] self.receivers[i]).spec_waker(),
                self.receivers[i].spec_wakeup::<T>(Permit::Closed),
            )
    }

    pub open spec fn told_senders_closed<F: Fn(W, Wakeup<T>) -> bool>(self, wake: F) -> bool {
        forall|i: int|
            0 <= i < self.senders.len() ==> (#[trigger] self.senders[i]).told_closed(wake)
    }

    /// The channel after closing: nobody waits to send, and nobody waits to receive what will
    /// never come.
    pub open spec fn after_close(self) -> Self {
        StateView {
            closed: true,
            senders: Seq::empty(),
            receivers: if self.recvable_len() == 0 {
                Seq::empty()
            } else {
                self.receivers
            },
            ..self
        }
    }

    /// The channel without its first value.
    pub open spec fn after_pop(self) -> Self {
        StateView { values: self.values.skip(1), ..self }
    }

    /// Whether a receiver without permit has taken the first value. Room in an open channel is
    /// offered to senders, and those who wait for a value of a closed channel are told when there
    /// will be none.
    pub open spec fn popped<F: Fn(W, Wakeup<T>) -> bool>(self, after: Self, wake: F) -> bool {
        if self.after_pop().drained() {
            &&& self.told_receivers_closed(wake)
            &&& after == (StateView { receivers: Seq::empty(), ..self.after_pop() })
        } else {
            exists|n: int| #[trigger] self.after_pop().offered_room(after, n, wake)
        }
    }

    /// The channel after a receiver gave its permit for the first value, if there is one.
    pub open spec fn after_consume(self) -> Self {
        StateView {
            recv_permits: (self.recv_permits - 1) as nat,
            values: if self.values.len() > 0 {
                self.values.skip(1)
            } else {
                self.values
            },
            ..self
        }
    }

    /// Whether a receiver has used its permit. The first value has gone, if there was one. Room in
    /// an open channel that was full is offered to senders, and those who wait for a value of a
    /// closed channel are told when there will be none.
    pub open spec fn consumed<F: Fn(W, Wakeup<T>) -> bool>(self, after: Self, wake: F) -> bool {
        if self.closed {
            if self.values.len() > 0 && self.after_consume().recvable_len() == 0 {
                &&& self.told_receivers_closed(wake)
                &&& after == (StateView { receivers: Seq::empty(), ..self.after_consume() })
            } else {
                after == self.after_consume()
            }
        } else if self.full() {
            exists|n: int| #[trigger] self.after_consume().offered_room(after, n, wake)
        } else {
            after == self.after_consume()
        }
    }

    /// The channel after one value came in.
    pub open spec fn after_push(self, value: T) -> Self {
        StateView { values: self.values.push(value), ..self }
    }

    /// The channel after one value came in by a permit.
    pub open spec fn after_permitted_push(self, value: T) -> Self {
        StateView { send_permits: (self.send_permits - 1) as nat, ..self.after_push(value) }
    }

    /// Whether watching has applied the permit `permit` or given it back, `granted` being the
    /// channel after handing it out.
    pub open spec fn applied<F: Fn(W, Wakeup<T>) -> bool>(
        self,
        after: Self,
        granted: Self,
        permit: Permit,
        selector: Selector<W>,
        wake: F,
        applied: bool,
    ) -> bool {
        &&& call_ensures(
            wake,
            (
                selector.spec_waker(),
                Wakeup::Select { index: selector.spec_index(), permit },
            ),
            applied,
        )
        &&& after == if applied {
            granted
        } else {
            self
        }
    }

    /// Whether the first sender of the identified selection has gone, if there is one.
    pub open spec fn unwatched_sender(self, after: Self, identifier: u64) -> bool {
        ||| after == self && forall|i: int|
            0 <= i < self.senders.len() ==> !(#[trigger] self.senders[i]).spec_matches(identifier)
        ||| exists|i: int|
            {
                &&& 0 <= i < self.senders.len()
                &&& (#[trigger] self.senders[i]).spec_matches(identifier)
                &&& forall|j: int|
                    0 <= j < i ==> !(#[trigger] self.senders[j]).spec_matches(identifier)
                &&& after == (StateView { senders: self.senders.remove(i), ..self })
            }
    }

    /// Whether the first receiver of the identified selection has gone, if there is one.
    pub open spec fn unwatched_receiver(self, after: Self, identifier: u64) -> bool {
        ||| after == self && forall|i: int|
            0 <= i < self.receivers.len() ==> !(#[trigger] self.receivers[i]).spec_matches(
                identifier,
            )
        ||| exists|i: int|
            {
                &&& 0 <= i < self.receivers.len()
                &&& (#[trigger] self.receivers[i]).spec_matches(identifier)
                &&& forall|j: int|
                    0 <= j < i ==> !(#[trigger] self.receivers[j]).spec_matches(identifier)
                &&& after == (StateView { receivers: self.receivers.remove(i), ..self })
            }
    }

    /// Permit for a selected sender, and the channel after handing it out.
    pub open spec fn send_permit(self) -> (Option<Permit>, Self) {
        if self.closed {
            (Some(Permit::Closed), self)
        } else if !self.full() {
            (
                Some(Permit::Consume),
                StateView { send_permits: self.send_permits + 1, ..self },
            )
        } else {
            (None, self)
        }
    }

    /// Permit for a selected receiver, and the channel after handing it out. Once the channel is
    /// closed, receivers contend for the remaining values.
    pub open spec fn recv_permit(self) -> (Option<Permit>, Self) {
        if !self.empty() || self.closed && self.send_permits == 0 && self.values.len() > 0 {
            (
                Some(Permit::Consume),
                StateView { recv_permits: self.recv_permits + 1, ..self },
            )
        } else if self.drained() {
            (Some(Permit::Closed), self)
        } else {
            (None, self)
        }
    }
}

pub struct State<T, W> {
    closed: bool,
    send_permits: usize,
    recv_permits: usize,
    bound: usize,
    deque: VecDeque<T>,
    senders: VecDeque<Waiter<T, W>>,
    receivers: VecDeque<RecvWaiter<W>>,
}

impl<T, W> View for State<T, W> {
    type V = StateView<T, W>;

    closed spec fn view(&self) -> StateView<T, W> {
        StateView {
            closed: self.closed,
            send_permits: self.send_permits as nat,
            recv_permits: self.recv_permits as nat,
            bound: self.bound as nat,
            values: self.deque@,
            senders: self.senders@,
            receivers: self.receivers@,
        }
    }
}

impl<T, W> State<T, W> {
    /// Constructs the state of an open channel.
    pub fn new(capacity: Capacity) -> (state: Self)
        requires
            capacity.spec_max() > 0,
        ensures
            state@.inv(),
            state@ == (StateView::<T, W> {
                closed: false,
                send_permits: 0,
                recv_permits: 0,
                bound: capacity.spec_max() as nat,
                values: Seq::empty(),
                senders: Seq::empty(),
                receivers: Seq::empty(),
            }),
    {
        State {
            send_permits: 0,
            recv_permits: 0,
            closed: false,
            bound: capacity.max,
            deque: VecDeque::with_capacity(capacity.min),
            senders: VecDeque::with_capacity(5),
            receivers: VecDeque::with_capacity(5),
        }
    }

    fn recvable_len(&self) -> (len: usize)
        requires
            self@.recvable_len() <= self@.bound,
        ensures
            len == self@.recvable_len(),
    {
        self.deque.len() + self.send_permits
    }

    fn is_full(&self) -> (full: bool)
        requires
            self@.recvable_len() <= self@.bound,
        ensures
            full == self@.full(),
    {
        self.recvable_len() == self.bound
    }

    fn is_empty(&self) -> (empty: bool)
        ensures
            empty == self@.empty(),
    {
        self.recv_permits >= self.deque.len()
    }

    fn is_recvable(&self) -> (recvable: bool)
        requires
            self@.recvable_len() <= self@.bound,
        ensures
            recvable == (self@.recvable_len() != 0),
    {
        self.recvable_len() != 0
    }

    /// Hands out a permit to send, unless a sender has to wait.
    pub fn select_send_permit(&mut self) -> (permit: Option<Permit>)
        requires
            old(self)@.inv(),
        ensures
            final(self)@.inv(),
            (permit, final(self)@) == old(self)@.send_permit(),
    {
        if self.closed {
            Some(Permit::Closed)
        } else if !self.is_full() {
            self.send_permits = self.send_permits + 1;
            Some(Permit::Consume)
        } else {
            None
        }
    }

    /// Hands out a permit to receive, unless a receiver has to wait.
    pub fn select_recv_permit(&mut self) -> (permit: Option<Permit>)
        requires
            old(self)@.inv(),
            old(self)@.recv_permits < usize::MAX,
        ensures
            final(self)@.inv(),
            (permit, final(self)@) == old(self)@.recv_permit(),
    {
        if !self.is_empty() {
            self.recv_permits = self.recv_permits + 1;
            Some(Permit::Consume)
        } else if self.closed {
            if self.send_permits != 0 {
                None
            } else if self.deque.len() == 0 {
                Some(Permit::Closed)
            } else {
                self.recv_permits = self.recv_permits + 1;
                Some(Permit::Consume)
            }
        } else {
            None
        }
    }

    /// Offers room for one value to the waiting senders in turn.
    fn wake_sender<F: Fn(W, Wakeup<T>) -> bool>(&mut self, wake: &F)
        requires
            forall|waker: W, wakeup: Wakeup<T>| #[trigger] call_requires(*wake, (waker, wakeup)),
            old(self)@.recvable_len() < old(self)@.bound,
        ensures
            exists|n: int| #[trigger] old(self)@.offered_room(final(self)@, n, *wake),
    {
        let ghost before = self@;
        let ghost mut n = 0int;
        assert(before.senders.skip(0) =~= before.senders);
        while self.senders.len() > 0
            invariant
                forall|waker: W, wakeup: Wakeup<T>| #[trigger]
                    call_requires(*wake, (waker, wakeup)),
                before == old(self)@,
                0 <= n <= before.senders.len(),
                forall|i: int| 0 <= i < n ==> (#[trigger] before.senders[i]).refused(*wake),
                self@ == (StateView { senders: before.senders.skip(n), ..before }),
                before.recvable_len() < before.bound,
            decreases self.senders@.len(),
        {
            let sender = self.senders.pop_front().unwrap();
            assert(sender == before.senders[n]);
            assert(self.senders@ =~= before.senders.skip(n + 1));
            match sender {
                Waiter::Task { waker, value } => {
                    if wake(waker, Wakeup::Sent(Ok(()))) {
                        self.deque.push_back(value);
                        assert(before.offered_room(self@, n, *wake));
                        return ;
                    }
                },
                Waiter::Thread { waker, value } => {
                    self.deque.push_back(value);
                    let _waked = wake(waker, Wakeup::Sent(Ok(())));
                    assert(before.senders[n].accepted(*wake));
                    assert(before.offered_room(self@, n, *wake));
                    return ;
                },
                Waiter::Selector { selector } => {
                    let (waker, (index, _)) = selector.apply(Permit::Consume.into_select());
                    if wake(waker, Wakeup::Select { index, permit: Permit::Consume }) {
                        self.send_permits = self.send_permits + 1;
                        assert(before.offered_room(self@, n, *wake));
                        return ;
                    }
                },
            }
            proof {
                n = n + 1;
            }
        }
        assert(self@.senders =~= Seq::empty());
        assert(before.offered_room(self@, n, *wake));
    }

    /// Offers one value to the waiting receivers in turn.
    fn wake_receiver<F: Fn(W, Wakeup<T>) -> bool>(&mut self, wake: &F)
        requires
            forall|waker: W, wakeup: Wakeup<T>| #[trigger] call_requires(*wake, (waker, wakeup)),
            old(self)@.recv_permits < usize::MAX,
        ensures
            exists|n: int| #[trigger] old(self)@.offered_value(final(self)@, n, *wake),
    {
        let ghost before = self@;
        let ghost mut n = 0int;
        assert(before.receivers.skip(0) =~= before.receivers);
        while self.receivers.len() > 0
            invariant
                forall|waker: W, wakeup: Wakeup<T>| #[trigger]
                    call_requires(*wake, (waker, wakeup)),
                before == old(self)@,
                0 <= n <= before.receivers.len(),
                forall|i: int|
                    0 <= i < n ==> call_ensures(
                        *wake,
                        (
                            (#[trigger] before.receivers[i]).spec_waker(),
                            before.receivers[i].spec_wakeup::<T>(Permit::Consume),
                        ),
                        false,
                    ),
                self@ == (StateView { receivers: before.receivers.skip(n), ..before }),
                before.recv_permits < usize::MAX,
            decreases self.receivers@.len(),
        {
            let receiver = self.receivers.pop_front().unwrap();
            assert(receiver == before.receivers[n]);
            assert(self.receivers@ =~= before.receivers.skip(n + 1));
            if receiver.wake(Permit::Consume, wake) {
                self.recv_permits = self.recv_permits + 1;
                assert(before.offered_value(self@, n, *wake));
                return ;
            }
            proof {
                n = n + 1;
            }
        }
        assert(self@.receivers =~= Seq::empty());
        assert(before.offered_value(self@, n, *wake));
    }

    fn close_senders<F: Fn(W, Wakeup<T>) -> bool>(&mut self, wake: &F)
        requires
            forall|waker: W, wakeup: Wakeup<T>| #[trigger] call_requires(*wake, (waker, wakeup)),
        ensures
            old(self)@.told_senders_closed(*wake),
            final(self)@ == (StateView { senders: Seq::empty(), ..old(self)@ }),
    {
        let ghost before = self@;
        let ghost mut n = 0int;
        assert(before.senders.skip(0) =~= before.senders);
        while self.senders.len() > 0
            invariant
                forall|waker: W, wakeup: Wakeup<T>| #[trigger]
                    call_requires(*wake, (waker, wakeup)),
                0 <= n <= before.senders.len(),
                forall|i: int| 0 <= i < n ==> (#[trigger] before.senders[i]).told_closed(*wake),
                self@ == (StateView { senders: before.senders.skip(n), ..before }),
            decreases self.senders@.len(),
        {
            let waiter = self.senders.pop_front().unwrap();
            assert(waiter == before.senders[n]);
            assert(self.senders@ =~= before.senders.skip(n + 1));
            match waiter {
                Waiter::Task { waker, value } => {
                    let _waked = wake(waker, Wakeup::Sent(Err(SendError::Closed(value))));
                },
                Waiter::Thread { waker, value } => {
                    let _waked = wake(waker, Wakeup::Sent(Err(SendError::Closed(value))));
                },
                Waiter::Selector { selector } => {
                    let (waker, (index, _)) = selector.apply(Permit::Closed.into_select());
                    let _waked = wake(waker, Wakeup::Select { index, permit: Permit::Closed });
                },
            }
            assert(before.senders[n].told_closed(*wake));
            proof {
                n = n + 1;
            }
        }
    }

    fn close_receivers<F: Fn(W, Wakeup<T>) -> bool>(&mut self, wake: &F)
        requires
            forall|waker: W, wakeup: Wakeup<T>| #[trigger] call_requires(*wake, (waker, wakeup)),
        ensures
            old(self)@.told_receivers_closed(*wake),
            final(self)@ == (StateView { receivers: Seq::empty(), ..old(self)@ }),
    {
        let ghost before = self@;
        let ghost mut n = 0int;
        assert(before.receivers.skip(0) =~= before.receivers);
        while self.receivers.len() > 0
            invariant
                forall|waker: W, wakeup: Wakeup<T>| #[trigger]
                    call_requires(*wake, (waker, wakeup)),
                0 <= n <= before.receivers.len(),
                forall|i: int|
                    0 <= i < n ==> told(
                        *wake,
                        (#[trigger] before.receivers[i]).spec_waker(),
                        before.receivers[i].spec_wakeup::<T>(Permit::Closed),
                    ),
                self@ == (StateView { receivers: before.receivers.skip(n), ..before }),
            decreases self.receivers@.len(),
        {
            let receiver = self.receivers.pop_front().unwrap();
            assert(receiver == before.receivers[n]);
            assert(self.receivers@ =~= before.receivers.skip(n + 1));
            let _waked = receiver.wake(Permit::Closed, wake);
            assert(told(
                *wake,
                before.receivers[n].spec_waker(),
                before.receivers[n].spec_wakeup::<T>(Permit::Closed),
            ));
            proof {
                n = n + 1;
            }
        }
    }

    /// Closes this channel for future sending. Everyone who waits in vain is told.
    pub fn close<F: Fn(W, Wakeup<T>) -> bool>(&mut self, wake: &F)
        requires
            forall|waker: W, wakeup: Wakeup<T>| #[trigger] call_requires(*wake, (waker, wakeup)),
            old(self)@.inv(),
        ensures
            final(self)@.inv(),
            final(self)@ == old(self)@.after_close(),
            old(self)@.told_senders_closed(*wake),
            old(self)@.recvable_len() == 0 ==> old(self)@.told_receivers_closed(*wake),
    {
        self.closed = true;
        let ghost closing = self@;
        self.close_senders(wake);
        proof {
            assert(closing.senders == old(self)@.senders);
            assert(closing.receivers == old(self)@.receivers);
            assert(old(self)@.told_senders_closed(*wake)) by {
                assert(closing.told_senders_closed(*wake));
            }
        }
        let ghost waiting = self@;
        if !self.is_recvable() {
            self.close_receivers(wake);
            assert(old(self)@.told_receivers_closed(*wake)) by {
                assert(waiting.receivers == old(self)@.receivers);
                assert(waiting.told_receivers_closed(*wake));
            }
        }
    }

    /// Receives the first value that no permit is reserved for.
    pub fn recv<F: Fn(W, Wakeup<T>) -> bool>(&mut self, trying: bool, wake: &F) -> (flow: RecvFlow<
        T,
    >)
        requires
            forall|waker: W, wakeup: Wakeup<T>| #[trigger] call_requires(*wake, (waker, wakeup)),
            old(self)@.inv(),
        ensures
            final(self)@.inv(),
            old(self)@.empty() ==> final(self)@ == old(self)@ && flow == if old(self)@.drained() {
                RecvFlow::<T>::Done(Err(TryRecvError::Closed))
            } else if trying {
                RecvFlow::Done(Err(TryRecvError::Empty))
            } else {
                RecvFlow::Wait
            },
            !old(self)@.empty() ==> {
                &&& flow == RecvFlow::Done(Ok::<T, TryRecvError>(old(self)@.values[0]))
                &&& old(self)@.popped(final(self)@, *wake)
            },
    {
        if self.is_empty() {
            if self.closed && !self.is_recvable() {
                return RecvFlow::Done(Err(TryRecvError::Closed));
            } else if trying {
                return RecvFlow::Done(Err(TryRecvError::Empty));
            }
            return RecvFlow::Wait;
        }
        let value = self.deque.pop_front().unwrap();
        let ghost popped = self@;
        assert(popped =~= old(self)@.after_pop());
        if self.closed && !self.is_recvable() {
            self.close_receivers(wake);
            assert(old(self)@.told_receivers_closed(*wake)) by {
                assert(popped.told_receivers_closed(*wake));
            }
            return RecvFlow::Done(Ok(value));
        }
        self.wake_sender(wake);
        proof {
            let n = choose|n: int| #[trigger] popped.offered_room(self@, n, *wake);
            lemma_offered_room_inv(popped, self@, n, *wake);
        }
        RecvFlow::Done(Ok(value))
    }

    /// Queues a receiver that has to wait.
    pub fn queue_receiver(&mut self, session: W)
        requires
            old(self)@.inv(),
            !old(self)@.drained(),
        ensures
            final(self)@.inv(),
            final(self)@ == (StateView {
                receivers: old(self)@.receivers.push(RecvWaiter::Receiver { session }),
                ..old(self)@
            }),
    {
        self.receivers.push_back(RecvWaiter::Receiver { session });
    }

    /// Receives the first value with a permit. While the channel is open there is one.
    pub fn consume_recv_permit<F: Fn(W, Wakeup<T>) -> bool>(&mut self, wake: &F) -> (value: Option<
        T,
    >)
        requires
            forall|waker: W, wakeup: Wakeup<T>| #[trigger] call_requires(*wake, (waker, wakeup)),
            old(self)@.inv(),
            old(self)@.recv_permits > 0,
        ensures
            final(self)@.inv(),
            value is Some <==> old(self)@.values.len() > 0,
            value is Some ==> value == Some(old(self)@.values[0]),
            !old(self)@.closed ==> value is Some,
            old(self)@.consumed(final(self)@, *wake),
    {
        let full = self.is_full();
        self.recv_permits = self.recv_permits - 1;
        let value = self.deque.pop_front();
        let ghost consumed = self@;
        assert(consumed =~= old(self)@.after_consume());
        if value.is_some() {
            if self.closed {
                if !self.is_recvable() {
                    self.close_receivers(wake);
                    assert(old(self)@.told_receivers_closed(*wake)) by {
                        assert(consumed.told_receivers_closed(*wake));
                    }
                }
            } else if full {
                self.wake_sender(wake);
                proof {
                    let n = choose|n: int| #[trigger] consumed.offered_room(self@, n, *wake);
                    lemma_offered_room_inv(consumed, self@, n, *wake);
                }
            }
        }
        value
    }

    /// Ends the wait of a receiver that was woken with `permit`.
    pub fn recv_permitted<F: Fn(W, Wakeup<T>) -> bool>(
        &mut self,
        permit: Permit,
        wake: &F,
    ) -> (result: Result<T, TryRecvError>)
        requires
            forall|waker: W, wakeup: Wakeup<T>| #[trigger] call_requires(*wake, (waker, wakeup)),
            old(self)@.inv(),
            permit == Permit::Consume ==> old(self)@.recv_permits > 0,
        ensures
            final(self)@.inv(),
            permit == Permit::Closed ==> final(self)@ == old(self)@ && result == Err::<T, _>(
                TryRecvError::Closed,
            ),
            permit == Permit::Consume ==> result == if old(self)@.values.len() > 0 {
                Ok::<T, TryRecvError>(old(self)@.values[0])
            } else {
                Err(TryRecvError::Closed)
            },
            permit == Permit::Consume ==> old(self)@.consumed(final(self)@, *wake),
    {
        if permit == Permit::Closed {
            return Err(TryRecvError::Closed);
        }
        match self.consume_recv_permit(wake) {
            None => Err(TryRecvError::Closed),
            Some(value) => Ok(value),
        }
    }

    /// Sends a value.
    pub fn send<F: Fn(W, Wakeup<T>) -> bool>(
        &mut self,
        trying: bool,
        value: T,
        wake: &F,
    ) -> (flow: SendFlow<T>)
        requires
            forall|waker: W, wakeup: Wakeup<T>| #[trigger] call_requires(*wake, (waker, wakeup)),
            old(self)@.inv(),
        ensures
            final(self)@.inv(),
            flow == if old(self)@.closed {
                SendFlow::Done(Err(TrySendError::Closed(value)))
            } else if !old(self)@.full() {
                SendFlow::Done(Ok(()))
            } else if trying {
                SendFlow::Done(Err(TrySendError::Full(value)))
            } else {
                SendFlow::Wait { value }
            },
            if old(self)@.closed || old(self)@.full() {
                final(self)@ == old(self)@
            } else {
                exists|n: int| #[trigger]
                    old(self)@.after_push(value).offered_value(final(self)@, n, *wake)
            },
    {
        if self.closed {
            return SendFlow::Done(Err(TrySendError::Closed(value)));
        } else if !self.is_full() {
            self.deque.push_back(value);
            assert(self@ =~= old(self)@.after_push(value));
            self.wake_receiver(wake);
            return SendFlow::Done(Ok(()));
        } else if trying {
            return SendFlow::Done(Err(TrySendError::Full(value)));
        }
        SendFlow::Wait { value }
    }

    /// Queues a sender that has to wait.
    pub fn queue_sender(&mut self, waiter: Waiter<T, W>)
        requires
            old(self)@.inv(),
            !old(self)@.closed,
            old(self)@.full(),
        ensures
            final(self)@.inv(),
            final(self)@ == (StateView {
                senders: old(self)@.senders.push(waiter),
                ..old(self)@
            }),
    {
        self.senders.push_back(waiter);
    }

    /// Sends a value with a permit. There is room for it even if the channel is closed by now, and
    /// it is offered to those who wait for one.
    pub fn consume_send_permit<F: Fn(W, Wakeup<T>) -> bool>(
        &mut self,
        value: T,
        wake: &F,
    ) -> (result: Result<(), SendError<T>>)
        requires
            forall|waker: W, wakeup: Wakeup<T>| #[trigger] call_requires(*wake, (waker, wakeup)),
            old(self)@.inv(),
            old(self)@.send_permits > 0,
            old(self)@.recv_permits < usize::MAX,
        ensures
            final(self)@.inv(),
            result is Ok,
            exists|n: int| #[trigger]
                old(self)@.after_permitted_push(value).offered_value(final(self)@, n, *wake),
    {
        self.send_permits = self.send_permits - 1;
        self.deque.push_back(value);
        assert(self@ =~= old(self)@.after_permitted_push(value));
        self.wake_receiver(wake);
        Ok(())
    }

    /// Watches for a permit to send. If there is one now, applies it and returns true.
    pub fn watch_send_permit<F: Fn(W, Wakeup<T>) -> bool>(
        &mut self,
        selector: Selector<W>,
        wake: &F,
    ) -> (permitted: bool)
        requires
            forall|waker: W, wakeup: Wakeup<T>| #[trigger] call_requires(*wake, (waker, wakeup)),
            old(self)@.inv(),
        ensures
            final(self)@.inv(),
            permitted <==> old(self)@.send_permit().0 is Some,
            !permitted ==> final(self)@ == (StateView {
                senders: old(self)@.senders.push(Waiter::Selector { selector }),
                ..old(self)@
            }),
            permitted ==> exists|applied: bool| #[trigger]
                old(self)@.applied(
                    final(self)@,
                    old(self)@.send_permit().1,
                    old(self)@.send_permit().0->0,
                    selector,
                    *wake,
                    applied,
                ),
    {
        match self.select_send_permit() {
            Some(permit) => {
                let (waker, (index, _)) = selector.apply(permit.into_select());
                let applied = wake(waker, Wakeup::Select { index, permit });
                if !applied && permit == Permit::Consume {
                    self.send_permits = self.send_permits - 1;
                }
                proof {
                    let granted = old(self)@.send_permit().1;
                    let permit = old(self)@.send_permit().0->0;
                    assert(old(self)@.applied(self@, granted, permit, selector, *wake, applied));
                }
                true
            },
            None => {
                self.senders.push_back(Waiter::Selector { selector });
                assert(self@ =~= (StateView {
                    senders: old(self)@.senders.push(Waiter::Selector { selector }),
                    ..old(self)@
                }));
                false
            },
        }
    }

    /// Unwatches for a permit to send.
    pub fn unwatch_send_permit(&mut self, identifier: &Identifier)
        requires
            old(self)@.inv(),
        ensures
            final(self)@.inv(),
            old(self)@.unwatched_sender(final(self)@, identifier@),
    {
        let mut i: usize = 0;
        while i < self.senders.len()
            invariant
                self@ == old(self)@,
                i <= self.senders@.len(),
                forall|j: int|
                    0 <= j < i ==> !(#[trigger] self@.senders[j]).spec_matches(identifier@),
                self@.inv(),
            decreases self.senders@.len() - i,
        {
            if self.senders[i].matches(identifier) {
                let _removed = self.senders.remove(i);
                assert(old(self)@.senders[i as int].spec_matches(identifier@));
                return ;
            }
            i = i + 1;
        }
    }

    /// Watches for a permit to receive. If there is one now, applies it and returns true.
    pub fn watch_recv_permit<F: Fn(W, Wakeup<T>) -> bool>(
        &mut self,
        selector: Selector<W>,
        wake: &F,
    ) -> (permitted: bool)
        requires
            forall|waker: W, wakeup: Wakeup<T>| #[trigger] call_requires(*wake, (waker, wakeup)),
            old(self)@.inv(),
            old(self)@.recv_permits < usize::MAX,
        ensures
            final(self)@.inv(),
            permitted <==> old(self)@.recv_permit().0 is Some,
            !permitted ==> final(self)@ == (StateView {
                receivers: old(self)@.receivers.push(RecvWaiter::Selector { selector }),
                ..old(self)@
            }),
            permitted ==> exists|applied: bool| #[trigger]
                old(self)@.applied(
                    final(self)@,
                    old(self)@.recv_permit().1,
                    old(self)@.recv_permit().0->0,
                    selector,
                    *wake,
                    applied,
                ),
    {
        match self.select_recv_permit() {
            Some(permit) => {
                let (waker, (index, _)) = selector.apply(permit.into_select());
                let applied = wake(waker, Wakeup::Select { index, permit });
                if !applied && permit == Permit::Consume {
                    self.recv_permits = self.recv_permits - 1;
                }
                proof {
                    let granted = old(self)@.recv_permit().1;
                    let permit = old(self)@.recv_permit().0->0;
                    assert(old(self)@.applied(self@, granted, permit, selector, *wake, applied));
                }
                true
            },
            None => {
                self.receivers.push_back(RecvWaiter::Selector { selector });
                assert(self@ =~= (StateView {
                    receivers: old(self)@.receivers.push(RecvWaiter::Selector { selector }),
                    ..old(self)@
                }));
                false
            },
        }
    }

    /// Unwatches for a permit to receive.
    pub fn unwatch_recv_permit(&mut self, identifier: &Identifier)
        requires
            old(self)@.inv(),
        ensures
            final(self)@.inv(),
            old(self)@.unwatched_receiver(final(self)@, identifier@),
    {
        let mut i: usize = 0;
        while i < self.receivers.len()
            invariant
                self@ == old(self)@,
                i <= self.receivers@.len(),
                forall|j: int|
                    0 <= j < i ==> !(#[trigger] self@.receivers[j]).spec_matches(identifier@),
                self@.inv(),
            decreases self.receivers@.len() - i,
        {
            if self.receivers[i].matches(identifier) {
                let _removed = self.receivers.remove(i);
                assert(old(self)@.receivers[i as int].spec_matches(identifier@));
                return ;
            }
            i = i + 1;
        }
    }
}

/// Outcome of one attempt to receive.
pub enum RecvFlow<T> {
    Done(Result<T, TryRecvError>),
    /// Queue a waker with [State::queue_receiver], and go on with [State::recv_permitted].
    Wait,
}

/// Outcome of one attempt to send.
pub enum SendFlow<T> {
    Done(Result<(), TrySendError<T>>),
    /// Queue the value with a waker in [State::queue_sender].
    Wait { value: T },
}

/// Room that is offered to waiting senders is taken by at most one of them.
proof fn lemma_offered_room_inv<T, W, F: Fn(W, Wakeup<T>) -> bool>(
    state: StateView<T, W>,
    after: StateView<T, W>,
    n: int,
    wake: F,
)
    requires
        state.offered_room(after, n, wake),
        0 < state.bound,
        state.recvable_len() <= state.bound,
        !state.closed ==> state.recv_permits <= state.values.len(),
        state.senders.len() > 0 ==> !state.closed && state.recvable_len() == state.bound - 1,
        state.receivers.len() > 0 ==> !state.drained(),
    ensures
        after.inv(),
{
}

/// What the waiting senders of `before` sent on the room that was offered up to the `n`-th.
pub open spec fn sent_by_waiter<T, W>(before: StateView<T, W>, n: int) -> Seq<T> {
    if n < before.senders.len() {
        match before.senders[n] {
            Waiter::Task { waker: _, value } => seq![value],
            Waiter::Thread { waker: _, value } => seq![value],
            Waiter::Selector { selector: _ } => Seq::empty(),
        }
    } else {
        Seq::empty()
    }
}

/// A receive takes the first value out, and a sender that was waiting for the room puts its own
/// last.
pub(crate) proof fn lemma_popped<T, W, F: Fn(W, Wakeup<T>) -> bool>(
    before: StateView<T, W>,
    after: StateView<T, W>,
    wake: F,
)
    requires
        before.inv(),
        before.values.len() > 0,
        before.popped(after, wake),
    ensures
        before.held().gives(before.values[0], after.held()),
{
    let entered = if before.after_pop().drained() {
        Seq::empty()
    } else {
        let n = choose|n: int| #[trigger] before.after_pop().offered_room(after, n, wake);
        sent_by_waiter(before, n)
    };
    assert(before.held().passes(
        Event::Received { value: before.values[0], entered },
        after.held(),
    ));
}

/// A receive by permit takes the first value out, if there is one, and a sender that was waiting
/// for the room puts its own last.
pub(crate) proof fn lemma_consumed<T, W, F: Fn(W, Wakeup<T>) -> bool>(
    before: StateView<T, W>,
    after: StateView<T, W>,
    wake: F,
)
    requires
        before.inv(),
        before.recv_permits > 0,
        before.consumed(after, wake),
    ensures
        before.values.len() > 0 ==> before.held().gives(before.values[0], after.held()),
        before.values.len() == 0 ==> before.held().passes(Event::Rest, after.held()),
{
    let entered = if !before.closed && before.full() {
        let n = choose|n: int| #[trigger] before.after_consume().offered_room(after, n, wake);
        sent_by_waiter(before, n)
    } else {
        Seq::empty()
    };
    if before.values.len() > 0 {
        assert(before.held().passes(
            Event::Received { value: before.values[0], entered },
            after.held(),
        ));
    }
}

/// A permit to receive from an open channel is backed by a value.
pub proof fn law_open_permit_has_value<T, W>(state: StateView<T, W>)
    requires
        state.inv(),
        !state.closed,
        state.recv_permits > 0,
    ensures
        state.values.len() > 0,
{
}

/// A value that comes in, with a permit or without, is offered to those who wait for one:
/// afterwards nobody waits any more, or one of them has a permit for it. So who is woken with a
/// permit is woken when there is a value.
pub proof fn law_value_is_offered<T, W, F: Fn(W, Wakeup<T>) -> bool>(
    before: StateView<T, W>,
    value: T,
    after: StateView<T, W>,
    n: int,
    wake: F,
)
    requires
        before.after_push(value).offered_value(after, n, wake) || before.after_permitted_push(
            value,
        ).offered_value(after, n, wake),
    ensures
        after.receivers.len() == 0 || after.recv_permits == before.recv_permits + 1,
        after.recv_permits <= before.recv_permits + 1,
        after.values == before.values.push(value),
        after.held().values.len() > 0,
{
}

/// Room that gets free is offered to those who wait for it: afterwards nobody waits any more, or
/// one of them has it.
pub proof fn law_room_is_offered<T, W, F: Fn(W, Wakeup<T>) -> bool>(
    before: StateView<T, W>,
    after: StateView<T, W>,
    n: int,
    wake: F,
)
    requires
        before.offered_room(after, n, wake),
    ensures
        after.senders.len() == 0 || after.recvable_len() == before.recvable_len() + 1,
        after.recvable_len() <= before.recvable_len() + 1,
{
}

/// Nobody waits on a drained channel.
pub proof fn law_nobody_waits_in_vain<T, W>(state: StateView<T, W>)
    requires
        state.inv(),
        state.drained(),
    ensures
        state.receivers.len() == 0,
        state.senders.len() == 0,
{
}

/// Those who wait for a value are told that the channel is closed only when it is drained: by a
/// call that closes it, or that takes the last value out. So who is woken with that is woken when
/// no value will come.
pub proof fn law_told_closed_only_if_drained<T, W, F: Fn(W, Wakeup<T>) -> bool>(
    before: StateView<T, W>,
    after: StateView<T, W>,
    wake: F,
)
    requires
        before.inv(),
        before.receivers.len() > 0,
        after.receivers.len() == 0,
    ensures
        after == before.after_close() ==> after.drained() && after.held().drained(),
        before.closed && before.values.len() > 0 && before.popped(after, wake) ==> after.drained(),
        before.closed && before.recv_permits > 0 && before.consumed(after, wake) ==> after.drained(),
{
}

/// A drained channel stays drained, and tells every sender and receiver that it is closed.
pub proof fn law_drained_for_good<T, W, F: Fn(W, Wakeup<T>) -> bool>(
    state: StateView<T, W>,
    after: StateView<T, W>,
    wake: F,
)
    requires
        state.drained(),
    ensures
        state.empty(),
        state.after_close().drained(),
        state.send_permit() == (Some(Permit::Closed), state),
        state.recv_permit() == (Some(Permit::Closed), state),
        state.recv_permits > 0 && state.consumed(after, wake) ==> after.drained(),
{
}

/// A bounded channel reserves its room from the start, and an unbounded one what it is told to.
pub proof fn law_capacity(capacity: usize, bounded: Capacity, unbounded: Capacity)
    requires
        call_ensures(Capacity::bounded, (capacity,), bounded),
        call_ensures(Capacity::unbounded, (capacity,), unbounded),
    ensures
        bounded.spec_min() == capacity,
        bounded.spec_max() == capacity,
        unbounded.spec_min() == capacity,
        unbounded.spec_max() == usize::MAX,
{
}

} // verus!
