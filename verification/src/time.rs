//! Utilities to suspend running coroutines.

pub mod wheel;

use std::collections::VecDeque;

use vstd::prelude::*;

use self::wheel::{Node, Timer, TimerView};
use crate::channel::serial;
use crate::select::{Identifier, Permit, PermitView, Selector, TrySelectError};

verus! {

/// Span of time.
#[derive(Debug, Clone, Copy, PartialEq, Eq, Structural)]
pub struct Duration {
    pub secs: u64,
    /// Less than a second.
    pub nanos: u32,
}

pub const NANOS_PER_MILLI: u32 = 1_000_000;

pub const NANOS_PER_SEC: u32 = 1_000_000_000;

impl Duration {
    pub open spec fn wf(self) -> bool {
        self.nanos < NANOS_PER_SEC
    }

    pub open spec fn as_nanos(self) -> int {
        self.secs * NANOS_PER_SEC + self.nanos
    }

    /// Whole milliseconds that are not less than this, as far as they can be told.
    pub open spec fn millis_up(self) -> int {
        let millis = (self.as_nanos() + NANOS_PER_MILLI - 1) / NANOS_PER_MILLI as int;
        if millis > u64::MAX {
            u64::MAX as int
        } else {
            millis
        }
    }

    /// Checks whether this is at least one millisecond.
    pub fn has_millis(&self) -> (has: bool)
        ensures
            has == (self.as_nanos() >= NANOS_PER_MILLI),
    {
        self.secs > 0 || self.nanos >= NANOS_PER_MILLI
    }

    /// Rounds up to whole milliseconds.
    pub fn round_up(&self) -> (millis: u64)
        requires
            self.wf(),
        ensures
            millis == self.millis_up(),
    {
        let millis: u128 = self.secs as u128 * 1000 + (self.nanos as u128 + 999_999) / 1_000_000;
        assert(self.secs * NANOS_PER_SEC == self.secs * 1000 * NANOS_PER_MILLI) by (nonlinear_arith)
            requires
                NANOS_PER_SEC == 1000 * NANOS_PER_MILLI,
        ;
        assert((self.as_nanos() + NANOS_PER_MILLI - 1) / NANOS_PER_MILLI as int == millis) by {
            let secs = self.secs as int * 1000;
            let rest = self.nanos + NANOS_PER_MILLI - 1;
            vstd::arithmetic::div_mod::lemma_hoist_over_denominator(
                rest,
                secs,
                NANOS_PER_MILLI as nat,
            );
        }
        if millis > u64::MAX as u128 {
            u64::MAX
        } else {
            millis as u64
        }
    }
}

/// Request to the timer.
pub enum Message<W> {
    /// Wake the session after the timeout, counted from the time of the clock at the request.
    Timeout { time: u64, timeout: u64, session: W },
    UpdateTime { time: u64 },
    Stop,
}

/// Tick at which a timeout expires, as far as it can be told: counted from the later of the time of
/// the clock at the request and the time of the timer, and one more than asked for to avoid earlier
/// wakeup due to partially elapsed tick.
pub open spec fn spec_expire(timer: u64, time: u64, timeout: u64) -> u64 {
    let start = if timer < time {
        time
    } else {
        timer
    };
    if start + timeout + 1 <= u64::MAX {
        (start + timeout + 1) as u64
    } else {
        u64::MAX
    }
}

/// What a message to the timer comes to.
pub struct Handled<W> {
    /// Sessions to wake in turn.
    pub expired: VecDeque<Node<W>>,
    /// Whether to accept no more messages.
    pub stop: bool,
}

/// Handles a message to the timer.
pub fn handle<W>(timer: &mut Timer<W>, message: Message<W>) -> (handled: Handled<W>)
    requires
        old(timer).wf(),
        old(timer)@.time < u64::MAX,
    ensures
        final(timer).wf(),
        message matches Message::Timeout { time, timeout, session } ==> {
            &&& final(timer)@ == (TimerView {
                time: old(timer)@.time,
                pending: old(timer)@.pending.insert(
                    Node { expire: spec_expire(old(timer)@.time, time, timeout), session },
                ),
            })
            &&& handled.expired@.len() == 0
            &&& !handled.stop
        },
        message matches Message::UpdateTime { time } ==> {
            &&& !handled.stop
            &&& time <= old(timer)@.time ==> final(timer)@ == old(timer)@
                && handled.expired@.len() == 0
            &&& time > old(timer)@.time ==> {
                &&& final(timer)@ == wheel::view_at(old(timer)@, time)
                &&& handled.expired@.to_multiset() == wheel::expired_at(old(timer)@, time)
            }
            &&& forall|i: int, j: int|
                0 <= i <= j < handled.expired@.len() ==> (#[trigger] handled.expired@[i]).expire
                    <= (#[trigger] handled.expired@[j]).expire
        },
        message is Stop ==> {
            &&& handled.stop
            &&& handled.expired@.len() == 0
            &&& final(timer)@ == old(timer)@
        },
{
    match message {
        Message::Timeout { time, timeout, session } => {
            let now: u64 = timer.time();
            let start: u64 = if now < time {
                time
            } else {
                now
            };
            let expire: u64 = start.saturating_add(timeout).saturating_add(1);
            timer.timeout(expire - now, session);
            Handled { expired: VecDeque::new(), stop: false }
        },
        Message::UpdateTime { time } => {
            let expired = timer.update(time);
            Handled { expired, stop: false }
        },
        Message::Stop => Handled { expired: VecDeque::new(), stop: true },
    }
}

/// Clock of the timer in milliseconds, and a random but not well distributed integer.
pub struct Ticker {
    time: u64,
    rand: u64,
}

impl Ticker {
    pub closed spec fn spec_time(&self) -> u64 {
        self.time
    }

    pub closed spec fn spec_rand(&self) -> u64 {
        self.rand
    }

    /// Constructs a clock from the milliseconds since the machine and the epoch began, and the
    /// random integer of the clock before.
    pub fn new(uptime: u64, epoch: u64, rand: u64) -> (ticker: Self)
        ensures
            ticker.spec_time() == 0,
            ticker.spec_rand() == (uptime + epoch + rand) as int % 0x1_0000_0000_0000_0000,
    {
        let sum: u64 = uptime.wrapping_add(epoch);
        Ticker { time: 0, rand: sum.wrapping_add(rand) }
    }

    /// Random but not well distributed integer.
    pub fn rand(&self) -> (rand: u64)
        ensures
            rand == self.spec_rand(),
    {
        self.rand
    }

    /// Moves the clock to the milliseconds elapsed since its start. Returns the time to tell the
    /// timer if it has moved.
    pub fn tick(&mut self, elapsed: u64) -> (time: Option<u64>)
        ensures
            elapsed > old(self).spec_time() ==> {
                &&& time == Some(elapsed)
                &&& final(self).spec_time() == elapsed
                &&& final(self).spec_rand() == (elapsed + old(self).spec_rand()) as int
                    % 0x1_0000_0000_0000_0000
            },
            elapsed <= old(self).spec_time() ==> time is None && *final(self) == *old(self),
    {
        if elapsed > self.time {
            self.time = elapsed;
            self.rand = elapsed.wrapping_add(self.rand);
            Some(elapsed)
        } else {
            None
        }
    }
}

/// How to sleep.
#[derive(Debug, PartialEq, Eq, Structural)]
pub enum Sleep {
    /// Yield the coroutine.
    Yield,
    /// Wait for the timer to wake a session after this timeout.
    Wait { timeout: u64 },
}

/// Message of the panic for a sleep outside of a runtime.
pub const NO_RUNTIME: &'static str = "no runtime";

/// Message of the panic for a sleep, or a selectable of this module, in a runtime that stops.
pub const RUNTIME_STOPPING: &'static str = "runtime stopping";

/// Sleeps for at least given duration.
pub fn sleep(timeout: Duration) -> (sleep: Sleep)
    requires
        timeout.wf(),
    ensures
        sleep == if timeout.as_nanos() == 0 {
            Sleep::Yield
        } else {
            Sleep::Wait { timeout: timeout.millis_up() as u64 }
        },
{
    let millis: u64 = timeout.round_up();
    if millis == 0 {
        Sleep::Yield
    } else {
        Sleep::Wait { timeout: millis }
    }
}

/// Milliseconds of the clock at an instant, in nanoseconds since its start.
pub open spec fn spec_clock(instant: int) -> int {
    instant / NANOS_PER_MILLI as int
}

/// Who asks to be woken at the instant `start`, with a timer however late, and is woken at the
/// instant `end`, when the clock has moved to the expiry or beyond, has slept for at least the given
/// duration. Instants are in nanoseconds since the start of the clock, which does not come to the
/// end of its milliseconds.
pub proof fn law_sleeps_long_enough(timeout: Duration, timer: u64, start: int, end: int)
    requires
        timeout.wf(),
        0 <= spec_clock(start) <= u64::MAX,
        spec_clock(end) >= spec_expire(
            timer,
            spec_clock(start) as u64,
            timeout.millis_up() as u64,
        ),
        spec_clock(end) < u64::MAX,
    ensures
        end - start >= timeout.as_nanos(),
{
    let time = spec_clock(start);
    let millis = timeout.millis_up();
    vstd::arithmetic::div_mod::lemma_fundamental_div_mod(
        timeout.as_nanos() + NANOS_PER_MILLI - 1,
        NANOS_PER_MILLI as int,
    );
    vstd::arithmetic::div_mod::lemma_fundamental_div_mod(start, NANOS_PER_MILLI as int);
    vstd::arithmetic::div_mod::lemma_fundamental_div_mod(end, NANOS_PER_MILLI as int);
    assert(millis < u64::MAX);
    assert(millis * NANOS_PER_MILLI >= timeout.as_nanos());
    assert(spec_clock(end) >= time + millis + 1);
    assert(spec_clock(end) * NANOS_PER_MILLI >= (time + millis + 1) * NANOS_PER_MILLI);
}

/// What feeds the channel of an [Interval] or [After].
#[derive(Debug, Clone, Copy, PartialEq, Eq, Structural)]
pub struct Feeder {
    pub delay: Option<Duration>,
    pub period: Option<Duration>,
}

/// What a feeder has done.
#[derive(Debug, Clone, Copy, PartialEq, Eq, Structural)]
pub enum Fed {
    Nothing,
    Slept,
    /// Sent to the channel, in vain if that is closed.
    Sent { ok: bool },
}

/// What a feeder does next.
#[derive(Debug, Clone, Copy, PartialEq, Eq, Structural)]
pub enum Feed {
    Sleep(Duration),
    Send,
    /// Drop the sender.
    Stop,
}

impl Feeder {
    /// What comes next: a sleep for the delay, if there is one, and a send, again after a sleep for
    /// the period, if there is one, until a send fails.
    pub fn next(&self, fed: Fed) -> (feed: Feed)
        ensures
            feed == match fed {
                Fed::Nothing => match self.delay {
                    Some(delay) => Feed::Sleep(delay),
                    None => Feed::Send,
                },
                Fed::Slept => Feed::Send,
                Fed::Sent { ok } => match self.period {
                    Some(period) => if ok {
                        Feed::Sleep(period)
                    } else {
                        Feed::Stop
                    },
                    None => Feed::Stop,
                },
            },
    {
        match fed {
            Fed::Nothing => match self.delay {
                Some(delay) => Feed::Sleep(delay),
                None => Feed::Send,
            },
            Fed::Slept => Feed::Send,
            Fed::Sent { ok } => match self.period {
                Some(period) => if ok {
                    Feed::Sleep(period)
                } else {
                    Feed::Stop
                },
                None => Feed::Stop,
            },
        }
    }
}

/// Selectable for [interval].
pub struct Interval {
    receiver: serial::Receiver,
}

/// Selectable for [after].
pub struct After {
    receiver: serial::Receiver,
}

/// Constructs a selectable that is ready to consume every `period` after optional `delay` before
/// first emit, with its channel, and the sender and feeder for a coroutine that feeds it.
pub fn interval<W>(period: Duration, delay: Option<Duration>) -> (interval: (
    serial::Channel<(), W>,
    Interval,
    serial::Sender,
    Feeder,
))
    requires
        period.wf(),
        period.as_nanos() >= NANOS_PER_MILLI,
    ensures
        interval.0@ == serial::ChannelView::<(), W>::new(512),
        interval.0@.inv(),
        interval.1.spec_receiver().attached(),
        interval.2.attached(),
        interval.3 == (Feeder { delay, period: Some(period) }),
{
    let (channel, sender, receiver) = serial::bounded(512);
    (channel, Interval { receiver }, sender, Feeder { delay, period: Some(period) })
}

/// Constructs a selectable that is ready to consume after specified duration, with its channel, and
/// the sender and feeder for a coroutine that feeds it.
pub fn after<W>(timeout: Duration) -> (after: (
    serial::Channel<(), W>,
    After,
    serial::Sender,
    Feeder,
))
    requires
        timeout.wf(),
    ensures
        after.0@ == serial::ChannelView::<(), W>::new(1),
        after.0@.inv(),
        after.1.spec_receiver().attached(),
        after.2.attached(),
        after.3 == (Feeder { delay: Some(timeout), period: None }),
{
    let (channel, sender, receiver) = serial::bounded(1);
    (channel, After { receiver }, sender, Feeder { delay: Some(timeout), period: None })
}

impl Interval {
    pub closed spec fn spec_receiver(&self) -> serial::Receiver {
        self.receiver
    }

    /// Returns true if permit watching will contend with possible parallel executions.
    pub fn parallel(&self) -> (parallel: bool)
        ensures
            !parallel,
    {
        false
    }

    /// Select for available permit.
    pub fn select_permit<W>(&self, channel: &serial::Channel<(), W>) -> (permit: Result<
        Permit,
        TrySelectError,
    >)
        requires
            self.spec_receiver().of(channel@),
        ensures
            if !self.spec_receiver().attached() {
                permit == Err::<Permit, _>(TrySelectError::Completed)
            } else if channel@.recvable() {
                permit is Ok && permit->Ok_0@ == (PermitView { primitive: 0, attendant: None })
            } else {
                permit == Err::<Permit, _>(TrySelectError::WouldBlock)
            },
    {
        self.receiver.select_permit(channel)
    }

    /// Watches for available permit. There must be none now.
    pub fn watch_permit<W>(
        &self,
        channel: &mut serial::Channel<(), W>,
        selector: Selector<W>,
    ) -> (watched: bool)
        requires
            self.spec_receiver().of(old(channel)@),
            self.spec_receiver().attached() ==> !old(channel)@.recvable(),
        ensures
            self.spec_receiver().of(final(channel)@),
            watched == self.spec_receiver().attached(),
            final(channel)@ == if self.spec_receiver().attached() {
                (serial::ChannelView {
                    waiting_receivers: old(channel)@.waiting_receivers.push(
                        serial::Waker::Selector(selector),
                    ),
                    ..old(channel)@
                })
            } else {
                old(channel)@
            },
    {
        self.receiver.watch_permit(channel, selector)
    }

    /// Unwatches possible applied selector.
    pub fn unwatch_permit<W>(
        &self,
        channel: &mut serial::Channel<(), W>,
        identifier: &Identifier,
    )
        requires
            self.spec_receiver().of(old(channel)@),
        ensures
            self.spec_receiver().of(final(channel)@),
            if self.spec_receiver().attached() {
                serial::unwatched(
                    old(channel)@.waiting_receivers,
                    final(channel)@.waiting_receivers,
                    identifier@,
                )
            } else {
                final(channel)@ == old(channel)@
            },
            final(channel)@ == (serial::ChannelView {
                waiting_receivers: final(channel)@.waiting_receivers,
                ..old(channel)@
            }),
    {
        self.receiver.unwatch_permit(channel, identifier)
    }

    /// Consumes permit. Returns false if there is nothing to consume, since the runtime stops.
    pub fn consume_permit<W, F: Fn(W, serial::Wakeup) -> bool>(
        &mut self,
        channel: &mut serial::Channel<(), W>,
        permit: Permit,
        wake: &F,
    ) -> (consumed: bool)
        requires
            forall|waker: W, wakeup: serial::Wakeup| #[trigger]
                call_requires(*wake, (waker, wakeup)),
            old(self).spec_receiver().of(old(channel)@),
            old(self).spec_receiver().attached() ==> old(channel)@.recvable(),
        ensures
            final(self).spec_receiver().of(final(channel)@),
            final(self).spec_receiver().attached() == consumed,
            consumed == (old(self).spec_receiver().attached() && old(channel)@.values.len() > 0),
            if !old(self).spec_receiver().attached() {
                final(channel)@ == old(channel)@
            } else if consumed {
                old(channel)@.received(final(channel)@, *wake)
            } else {
                old(channel)@.lost_receiver(final(channel)@, *wake)
            },
    {
        self.receiver.consume_permit(channel, permit, wake).is_some()
    }

    /// Terminates this interval. Nobody receives what is fed to it then.
    pub fn terminate<W, F: Fn(W, serial::Wakeup) -> bool>(
        &mut self,
        channel: &mut serial::Channel<(), W>,
        wake: &F,
    )
        requires
            forall|waker: W, wakeup: serial::Wakeup| #[trigger]
                call_requires(*wake, (waker, wakeup)),
            old(self).spec_receiver().of(old(channel)@),
        ensures
            final(self).spec_receiver().of(final(channel)@),
            !final(self).spec_receiver().attached(),
            if old(self).spec_receiver().attached() {
                old(channel)@.lost_receiver(final(channel)@, *wake)
            } else {
                final(channel)@ == old(channel)@
            },
    {
        self.receiver.terminate(channel, wake);
    }
}

impl After {
    pub closed spec fn spec_receiver(&self) -> serial::Receiver {
        self.receiver
    }

    /// Returns true if permit watching will contend with possible parallel executions.
    pub fn parallel(&self) -> (parallel: bool)
        ensures
            !parallel,
    {
        false
    }

    /// Select for available permit.
    pub fn select_permit<W>(&self, channel: &serial::Channel<(), W>) -> (permit: Result<
        Permit,
        TrySelectError,
    >)
        requires
            self.spec_receiver().of(channel@),
        ensures
            if !self.spec_receiver().attached() {
                permit == Err::<Permit, _>(TrySelectError::Completed)
            } else if channel@.recvable() {
                permit is Ok && permit->Ok_0@ == (PermitView { primitive: 0, attendant: None })
            } else {
                permit == Err::<Permit, _>(TrySelectError::WouldBlock)
            },
    {
        self.receiver.select_permit(channel)
    }

    /// Watches for available permit. There must be none now.
    pub fn watch_permit<W>(
        &self,
        channel: &mut serial::Channel<(), W>,
        selector: Selector<W>,
    ) -> (watched: bool)
        requires
            self.spec_receiver().of(old(channel)@),
            self.spec_receiver().attached() ==> !old(channel)@.recvable(),
        ensures
            self.spec_receiver().of(final(channel)@),
            watched == self.spec_receiver().attached(),
            final(channel)@ == if self.spec_receiver().attached() {
                (serial::ChannelView {
                    waiting_receivers: old(channel)@.waiting_receivers.push(
                        serial::Waker::Selector(selector),
                    ),
                    ..old(channel)@
                })
            } else {
                old(channel)@
            },
    {
        self.receiver.watch_permit(channel, selector)
    }

    /// Unwatches possible applied selector.
    pub fn unwatch_permit<W>(
        &self,
        channel: &mut serial::Channel<(), W>,
        identifier: &Identifier,
    )
        requires
            self.spec_receiver().of(old(channel)@),
        ensures
            self.spec_receiver().of(final(channel)@),
            if self.spec_receiver().attached() {
                serial::unwatched(
                    old(channel)@.waiting_receivers,
                    final(channel)@.waiting_receivers,
                    identifier@,
                )
            } else {
                final(channel)@ == old(channel)@
            },
            final(channel)@ == (serial::ChannelView {
                waiting_receivers: final(channel)@.waiting_receivers,
                ..old(channel)@
            }),
    {
        self.receiver.unwatch_permit(channel, identifier)
    }

    /// Consumes permit and is completed then. Returns false if there is nothing to consume, since
    /// the runtime stops.
    pub fn consume_permit<W, F: Fn(W, serial::Wakeup) -> bool>(
        &mut self,
        channel: &mut serial::Channel<(), W>,
        permit: Permit,
        wake: &F,
    ) -> (consumed: bool)
        requires
            forall|waker: W, wakeup: serial::Wakeup| #[trigger]
                call_requires(*wake, (waker, wakeup)),
            old(self).spec_receiver().of(old(channel)@),
            old(self).spec_receiver().attached() ==> old(channel)@.recvable(),
        ensures
            final(self).spec_receiver().of(final(channel)@),
            !final(self).spec_receiver().attached(),
            consumed == (old(self).spec_receiver().attached() && old(channel)@.values.len() > 0),
            if !old(self).spec_receiver().attached() {
                final(channel)@ == old(channel)@
            } else if consumed {
                exists|received: serial::ChannelView<(), W>|
                    old(channel)@.received(received, *wake) && #[trigger] received.lost_receiver(
                        final(channel)@,
                        *wake,
                    )
            } else {
                old(channel)@.lost_receiver(final(channel)@, *wake)
            },
    {
        let consumed = self.receiver.consume_permit(channel, permit, wake).is_some();
        let ghost received = channel@;
        self.receiver.terminate(channel, wake);
        assert(consumed ==> received.lost_receiver(channel@, *wake));
        consumed
    }

    /// Terminates this selectable. Nobody receives what is fed to it then.
    pub fn terminate<W, F: Fn(W, serial::Wakeup) -> bool>(
        &mut self,
        channel: &mut serial::Channel<(), W>,
        wake: &F,
    )
        requires
            forall|waker: W, wakeup: serial::Wakeup| #[trigger]
                call_requires(*wake, (waker, wakeup)),
            old(self).spec_receiver().of(old(channel)@),
        ensures
            final(self).spec_receiver().of(final(channel)@),
            !final(self).spec_receiver().attached(),
            if old(self).spec_receiver().attached() {
                old(channel)@.lost_receiver(final(channel)@, *wake)
            } else {
                final(channel)@ == old(channel)@
            },
    {
        self.receiver.terminate(channel, wake);
    }
}

/// Rounding up to milliseconds gives the least number of them that is not less than the span, or the
/// greatest that can be told. A span has a millisecond if and only if it is not less than one.
pub proof fn law_round_up(span: &Duration, millis: u64, has: bool)
    requires
        span.nanos < 1_000_000_000,
        call_ensures(Duration::round_up, (span,), millis),
        call_ensures(Duration::has_millis, (span,), has),
    ensures
        millis < u64::MAX ==> millis * 1_000_000 >= span.secs * 1_000_000_000 + span.nanos,
        (millis - 1) * 1_000_000 < span.secs * 1_000_000_000 + span.nanos,
        has <==> span.secs * 1_000_000_000 + span.nanos >= 1_000_000,
{
    vstd::arithmetic::div_mod::lemma_fundamental_div_mod(
        span.as_nanos() + NANOS_PER_MILLI - 1,
        NANOS_PER_MILLI as int,
    );
    let up = (span.as_nanos() + NANOS_PER_MILLI - 1) / NANOS_PER_MILLI as int;
    assert(up * NANOS_PER_MILLI >= span.as_nanos());
    assert((up - 1) * NANOS_PER_MILLI < span.as_nanos());
    assert(millis <= up);
    assert((millis - 1) * NANOS_PER_MILLI <= (up - 1) * NANOS_PER_MILLI);
}

/// A sleep for no time yields, and any other waits for the span rounded up to milliseconds.
pub proof fn law_sleep(span: Duration, millis: u64, sleep: Sleep)
    requires
        span.nanos < 1_000_000_000,
        call_ensures(Duration::round_up, (&span,), millis),
        call_ensures(self::sleep, (span,), sleep),
    ensures
        sleep is Yield <==> span.secs == 0 && span.nanos == 0,
        sleep is Wait ==> sleep->timeout == millis,
{
}

/// Asking the timer for a timeout has the session wait, with the others, until one tick more than
/// asked for has gone by since the later of the time of the clock and that of the timer, or for the
/// last tick. Nobody is woken by asking, and time stands still.
pub proof fn law_timeout_message<W>(
    timer: &mut Timer<W>,
    time: u64,
    timeout: u64,
    session: W,
    handled: Handled<W>,
    node: Node<W>,
    later: int,
)
    requires
        call_ensures(
            handle::<W>,
            (timer, Message::Timeout { time, timeout, session }),
            handled,
        ),
        later >= time,
        later >= old(timer)@.time,
        later == time || later == old(timer)@.time,
    ensures
        !handled.stop,
        handled.expired@.len() == 0,
        final(timer)@.time == old(timer)@.time,
        node.session == session && node.expire == later + timeout + 1
            ==> final(timer)@.pending.count(node) == old(timer)@.pending.count(node) + 1,
        node.session == session && node.expire == u64::MAX && later + timeout + 1 > u64::MAX
            ==> final(timer)@.pending.count(node) == old(timer)@.pending.count(node) + 1,
        node.session != session ==> final(timer)@.pending.count(node)
            == old(timer)@.pending.count(node),
        final(timer)@.pending.len() == old(timer)@.pending.len() + 1,
{
}

/// Telling the timer the time wakes everyone whose tick has come, the earliest first, and nobody
/// else. A time that has passed does nothing, and neither stops the timer. The message to stop does,
/// and nothing else.
pub proof fn law_time_message<W>(
    timer: &mut Timer<W>,
    time: u64,
    handled: Handled<W>,
    stopping: &mut Timer<W>,
    stopped: Handled<W>,
    node: Node<W>,
    i: int,
    j: int,
)
    requires
        call_ensures(handle::<W>, (timer, Message::UpdateTime { time }), handled),
        call_ensures(handle::<W>, (stopping, Message::Stop), stopped),
    ensures
        !handled.stop,
        time <= old(timer)@.time ==> {
            &&& final(timer)@.time == old(timer)@.time
            &&& final(timer)@.pending.count(node) == old(timer)@.pending.count(node)
            &&& handled.expired@.len() == 0
        },
        time > old(timer)@.time ==> final(timer)@.time == time,
        time > old(timer)@.time && node.expire <= time ==> {
            &&& handled.expired@.to_multiset().count(node) == old(timer)@.pending.count(node)
            &&& final(timer)@.pending.count(node) == 0
        },
        time > old(timer)@.time && node.expire > time ==> {
            &&& handled.expired@.to_multiset().count(node) == 0
            &&& final(timer)@.pending.count(node) == old(timer)@.pending.count(node)
        },
        0 <= i <= j < handled.expired@.len() ==> handled.expired@[i].expire
            <= handled.expired@[j].expire,
        stopped.stop,
        stopped.expired@.len() == 0,
        final(stopping)@ == old(stopping)@,
{
}

/// Who sleeps is not woken before the span is over, however late the timer is: asked for at one
/// instant of the clock, a session that is alone comes out only when the clock has moved by more
/// milliseconds than the span has. Instants of the clock are in nanoseconds.
pub proof fn law_slept_long_enough<W>(
    span: Duration,
    sleep: Sleep,
    asking: &mut Timer<W>,
    waking: &mut Timer<W>,
    session: W,
    asked: Handled<W>,
    time: u64,
    woken: Handled<W>,
    start: int,
    end: int,
    node: Node<W>,
)
    requires
        span.nanos < 1_000_000_000,
        call_ensures(self::sleep, (span,), sleep),
        sleep is Wait,
        0 <= start,
        start / 1_000_000 < u64::MAX,
        call_ensures(
            handle::<W>,
            (
                asking,
                Message::Timeout {
                    time: (start / 1_000_000) as u64,
                    timeout: sleep->timeout,
                    session,
                },
            ),
            asked,
        ),
        old(asking)@.pending.count(node) == 0,
        *old(waking) == *final(asking),
        call_ensures(handle::<W>, (waking, Message::UpdateTime { time }), woken),
        time == end / 1_000_000,
        time < u64::MAX,
        old(waking)@.time < time,
        woken.expired@.to_multiset().count(node) > 0,
    ensures
        node.session == session,
        end - start >= span.secs * 1_000_000_000 + span.nanos,
{
    law_sleeps_long_enough(span, old(asking)@.time, start, end);
}

/// The clock moves only forward, to the time that has elapsed, and tells the timer whenever it does
/// and only then. The random integer takes up every time.
pub proof fn law_ticker(
    uptime: u64,
    epoch: u64,
    seed: u64,
    new: Ticker,
    ticker: &mut Ticker,
    elapsed: u64,
    time: Option<u64>,
    rand: (u64, u64, u64),
)
    requires
        call_ensures(Ticker::new, (uptime, epoch, seed), new),
        call_ensures(Ticker::rand, (&new,), rand.2),
        call_ensures(Ticker::rand, (old(ticker),), rand.0),
        call_ensures(Ticker::tick, (ticker, elapsed), time),
        call_ensures(Ticker::rand, (final(ticker),), rand.1),
    ensures
        new.spec_time() == 0,
        (uptime + epoch + seed - rand.2) % 0x1_0000_0000_0000_0000 == 0,
        time is Some <==> elapsed > old(ticker).spec_time(),
        time is Some ==> time->0 == elapsed && final(ticker).spec_time() == elapsed,
        time is Some ==> (rand.0 + elapsed - rand.1) % 0x1_0000_0000_0000_0000 == 0,
        time is None ==> final(ticker).spec_time() == old(ticker).spec_time() && rand.1 == rand.0,
{
}

/// A feeder begins with its delay, if it has one, sends after every sleep, and sleeps for its period
/// after every send, if it has one. It stops after a send only if that failed or there is no period.
pub proof fn law_feeder(feeder: &Feeder, first: Feed, slept: Feed, sent: Feed, failed: Feed)
    requires
        call_ensures(Feeder::next, (feeder, Fed::Nothing), first),
        call_ensures(Feeder::next, (feeder, Fed::Slept), slept),
        call_ensures(Feeder::next, (feeder, Fed::Sent { ok: true }), sent),
        call_ensures(Feeder::next, (feeder, Fed::Sent { ok: false }), failed),
    ensures
        feeder.delay is Some ==> first == Feed::Sleep(feeder.delay->0),
        feeder.delay is None ==> first is Send,
        slept is Send,
        feeder.period is Some ==> sent == Feed::Sleep(feeder.period->0),
        feeder.period is None ==> sent is Stop,
        failed is Stop,
{
}

/// An interval sends time and again, and what is to come after a span is sent once, after that span.
/// Their channels are open and empty, with one sender and the one receiver that is theirs.
pub proof fn law_new_selectables<W>(
    period: Duration,
    delay: Option<Duration>,
    timeout: Duration,
    interval: (serial::Channel<(), W>, Interval, serial::Sender, Feeder),
    after: (serial::Channel<(), W>, After, serial::Sender, Feeder),
    fed: (Feed, Feed, Feed, Feed),
)
    requires
        call_ensures(self::interval::<W>, (period, delay), interval),
        call_ensures(self::after::<W>, (timeout,), after),
        call_ensures(Feeder::next, (&interval.3, Fed::Nothing), fed.0),
        call_ensures(Feeder::next, (&interval.3, Fed::Sent { ok: true }), fed.1),
        call_ensures(Feeder::next, (&after.3, Fed::Nothing), fed.2),
        call_ensures(Feeder::next, (&after.3, Fed::Sent { ok: true }), fed.3),
    ensures
        delay is Some ==> fed.0 == Feed::Sleep(delay->0),
        delay is None ==> fed.0 is Send,
        fed.1 == Feed::Sleep(period),
        fed.2 == Feed::Sleep(timeout),
        fed.3 is Stop,
        interval.0@.bound == 512,
        after.0@.bound == 1,
        !interval.0@.closed && !after.0@.closed,
        interval.0@.values.len() == 0 && after.0@.values.len() == 0,
        interval.0@.senders == 1 && after.0@.senders == 1,
        interval.0@.receivers == 1 && after.0@.receivers == 1,
        interval.0@.waiting_senders.len() == 0 && after.0@.waiting_senders.len() == 0,
        interval.0@.waiting_receivers.len() == 0 && after.0@.waiting_receivers.len() == 0,
        interval.1.spec_receiver().attached() && after.1.spec_receiver().attached(),
        interval.2.attached() && after.2.attached(),
{
}

/// There is a permit if and only if something was fed or nothing more will be, and none for good once
/// completed. Permits are for one thread.
pub proof fn law_permits<W>(
    interval: &Interval,
    after: &After,
    channel: &serial::Channel<(), W>,
    permits: (Result<Permit, TrySelectError>, Result<Permit, TrySelectError>),
    parallel: (bool, bool),
)
    requires
        call_ensures(Interval::select_permit::<W>, (interval, channel), permits.0),
        call_ensures(After::select_permit::<W>, (after, channel), permits.1),
        call_ensures(Interval::parallel, (interval,), parallel.0),
        call_ensures(After::parallel, (after,), parallel.1),
    ensures
        permits.0 is Ok <==> interval.spec_receiver().attached() && (channel@.closed
            || channel@.values.len() > 0),
        permits.0 == Err::<Permit, _>(TrySelectError::Completed)
            <==> !interval.spec_receiver().attached(),
        permits.1 is Ok <==> after.spec_receiver().attached() && (channel@.closed
            || channel@.values.len() > 0),
        permits.1 == Err::<Permit, _>(TrySelectError::Completed)
            <==> !after.spec_receiver().attached(),
        parallel == (false, false),
{
}

/// Watching lines up behind those who watch, unless completed, and unwatching undoes it.
pub proof fn law_unwatch_undoes_watch<W>(
    interval: &Interval,
    after: &After,
    first: &mut serial::Channel<(), W>,
    unfirst: &mut serial::Channel<(), W>,
    second: &mut serial::Channel<(), W>,
    unsecond: &mut serial::Channel<(), W>,
    selector: Selector<W>,
    identifier: &Identifier,
    watched: (bool, bool),
)
    requires
        call_ensures(Interval::watch_permit::<W>, (interval, first, selector), watched.0),
        call_ensures(Interval::unwatch_permit::<W>, (interval, unfirst, identifier), ()),
        call_ensures(After::watch_permit::<W>, (after, second, selector), watched.1),
        call_ensures(After::unwatch_permit::<W>, (after, unsecond, identifier), ()),
        *old(unfirst) == *final(first),
        *old(unsecond) == *final(second),
        selector.spec_identifier() == identifier@,
        forall|i: int|
            0 <= i < old(first)@.waiting_receivers.len() ==> !((
            #[trigger] old(first)@.waiting_receivers[i]) matches serial::Waker::Selector(other)
                && other.spec_identifier() == identifier@),
        forall|i: int|
            0 <= i < old(second)@.waiting_receivers.len() ==> !((
            #[trigger] old(second)@.waiting_receivers[i]) matches serial::Waker::Selector(other)
                && other.spec_identifier() == identifier@),
    ensures
        watched.0 == interval.spec_receiver().attached(),
        watched.1 == after.spec_receiver().attached(),
        watched.0 ==> final(first)@.waiting_receivers == old(first)@.waiting_receivers.push(
            serial::Waker::Selector(selector),
        ),
        watched.1 ==> final(second)@.waiting_receivers == old(second)@.waiting_receivers.push(
            serial::Waker::Selector(selector),
        ),
        final(unfirst)@ == old(first)@,
        final(unsecond)@ == old(second)@,
{
    if watched.0 {
        lemma_unwatched(
            old(first)@.waiting_receivers,
            selector,
            final(unfirst)@.waiting_receivers,
            identifier@,
        );
    }
    if watched.1 {
        lemma_unwatched(
            old(second)@.waiting_receivers,
            selector,
            final(unsecond)@.waiting_receivers,
            identifier@,
        );
    }
}

proof fn lemma_unwatched<W>(
    before: Seq<serial::Waker<W>>,
    selector: Selector<W>,
    after: Seq<serial::Waker<W>>,
    identifier: u64,
)
    requires
        serial::unwatched(before.push(serial::Waker::Selector(selector)), after, identifier),
        selector.spec_identifier() == identifier,
        forall|i: int|
            0 <= i < before.len() ==> !((#[trigger] before[i]) matches serial::Waker::Selector(
                other,
            ) && other.spec_identifier() == identifier),
    ensures
        after == before,
{
    let watching = before.push(serial::Waker::Selector(selector));
    let n = before.len() as int;
    assert(watching[n].spec_matches(identifier));
    assert forall|i: int| 0 <= i < n implies !(#[trigger] watching[i]).spec_matches(
        identifier,
    ) by {
        assert(watching[i] == before[i]);
    }
    assert(watching.remove(n) =~= before);
    assert(after =~= before);
}

/// An interval gives what was fed, one at a time and in turn, and completes only when nothing more
/// will be.
pub proof fn law_interval_goes_on<W, F: Fn(W, serial::Wakeup) -> bool>(
    interval: &mut Interval,
    channel: &mut serial::Channel<(), W>,
    permit: Permit,
    wake: &F,
    consumed: bool,
)
    requires
        call_ensures(Interval::consume_permit::<W, F>, (interval, channel, permit, wake), consumed),
        old(interval).spec_receiver().of(old(channel)@),
    ensures
        consumed <==> old(interval).spec_receiver().attached() && old(channel)@.values.len() > 0,
        consumed <==> final(interval).spec_receiver().attached(),
        consumed ==> {
            &&& final(channel)@.values == old(channel)@.values.drop_first()
            &&& final(channel)@.receivers == old(channel)@.receivers
            &&& final(channel)@.closed == old(channel)@.closed
        },
        !consumed ==> final(channel)@.values == old(channel)@.values,
        !consumed && old(interval).spec_receiver().attached() ==> {
            &&& final(channel)@.receivers + 1 == old(channel)@.receivers
            &&& final(channel)@.closed == (old(channel)@.closed || final(channel)@.receivers == 0)
        },
        !old(interval).spec_receiver().attached() ==> final(channel)@ == old(channel)@,
        final(channel)@.senders == old(channel)@.senders,
        final(channel)@.bound == old(channel)@.bound,
{
}

/// What comes after a span comes once: it is completed then, and if nobody else receives, the channel
/// is closed.
pub proof fn law_after_comes_once<W, F: Fn(W, serial::Wakeup) -> bool>(
    after: &mut After,
    channel: &mut serial::Channel<(), W>,
    permit: Permit,
    wake: &F,
    consumed: bool,
)
    requires
        call_ensures(After::consume_permit::<W, F>, (after, channel, permit, wake), consumed),
        old(after).spec_receiver().of(old(channel)@),
    ensures
        consumed <==> old(after).spec_receiver().attached() && old(channel)@.values.len() > 0,
        !final(after).spec_receiver().attached(),
        consumed ==> final(channel)@.values == old(channel)@.values.drop_first(),
        !consumed ==> final(channel)@.values == old(channel)@.values,
        old(after).spec_receiver().attached() ==> {
            &&& final(channel)@.receivers + 1 == old(channel)@.receivers
            &&& final(channel)@.closed == (old(channel)@.closed || final(channel)@.receivers == 0)
        },
        !old(after).spec_receiver().attached() ==> final(channel)@ == old(channel)@,
        final(channel)@.senders == old(channel)@.senders,
        final(channel)@.bound == old(channel)@.bound,
{
}

/// Terminating completes for good: there is one receiver less, once, and without any the channel is
/// closed. What was fed is left.
pub proof fn law_terminated<W, F: Fn(W, serial::Wakeup) -> bool>(
    interval: &mut Interval,
    after: &mut After,
    first: &mut serial::Channel<(), W>,
    second: &mut serial::Channel<(), W>,
    wake: &F,
)
    requires
        call_ensures(Interval::terminate::<W, F>, (interval, first, wake), ()),
        old(interval).spec_receiver().of(old(first)@),
        call_ensures(After::terminate::<W, F>, (after, second, wake), ()),
        old(after).spec_receiver().of(old(second)@),
    ensures
        !final(interval).spec_receiver().attached(),
        !final(after).spec_receiver().attached(),
        old(interval).spec_receiver().attached() ==> {
            &&& final(first)@.receivers + 1 == old(first)@.receivers
            &&& final(first)@.closed == (old(first)@.closed || final(first)@.receivers == 0)
        },
        !old(interval).spec_receiver().attached() ==> final(first)@ == old(first)@,
        final(first)@.values == old(first)@.values,
        final(first)@.senders == old(first)@.senders,
        old(after).spec_receiver().attached() ==> {
            &&& final(second)@.receivers + 1 == old(second)@.receivers
            &&& final(second)@.closed == (old(second)@.closed || final(second)@.receivers == 0)
        },
        !old(after).spec_receiver().attached() ==> final(second)@ == old(second)@,
        final(second)@.values == old(second)@.values,
        final(second)@.senders == old(second)@.senders,
{
}

} // verus!
