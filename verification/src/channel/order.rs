//! Order of the values that pass a channel.
//!
//! A call on a channel is seen here by what it does to the values: it takes one in, gives one out,
//! tells a receiver that none will come, or leaves them as they are.

use vstd::prelude::*;

verus! {

/// What a channel holds.
#[verifier::ext_equal]
pub struct Held<T> {
    /// Values in the order in which they will leave.
    pub values: Seq<T>,
    /// Whether another value may come.
    pub open: bool,
}

/// What a call does to the values of a channel.
pub enum Event<T> {
    /// A value went in, and its sender was told so.
    Sent(T),
    /// A receiver got a value. The values of senders that had waited for the room went in, and
    /// these were told so.
    Received { value: T, entered: Seq<T> },
    /// A receiver was told that no value will come.
    Ended,
    /// The values stay.
    Rest,
}

impl<T> Event<T> {
    /// Values that went in.
    pub open spec fn sent(self) -> Seq<T> {
        match self {
            Event::Sent(value) => seq![value],
            Event::Received { value: _, entered } => entered,
            _ => Seq::empty(),
        }
    }

    /// Values that came out.
    pub open spec fn received(self) -> Seq<T> {
        match self {
            Event::Received { value, entered: _ } => seq![value],
            _ => Seq::empty(),
        }
    }
}

impl<T> Held<T> {
    /// Whether there is no value and none will come.
    pub open spec fn drained(self) -> bool {
        !self.open && self.values.len() == 0
    }

    /// Whether a call does what is said of it. Values go in last, and only while the channel is
    /// open; they come out in front. A receiver is told that none will come only if that is so.
    pub open spec fn passes(self, event: Event<T>, after: Self) -> bool {
        &&& !self.open ==> !after.open
        &&& match event {
            Event::Sent(value) => self.open && after.values =~= self.values.push(value),
            Event::Received { value, entered } => {
                &&& self.values.len() > 0
                &&& value == self.values[0]
                &&& after.values =~= self.values.skip(1) + entered
                &&& entered.len() > 0 ==> self.open
            },
            Event::Ended => self.drained() && after.values =~= self.values,
            Event::Rest => after.values =~= self.values,
        }
    }

    /// Whether a receive gives `value`.
    pub open spec fn gives(self, value: T, after: Self) -> bool {
        exists|entered: Seq<T>| #[trigger]
            self.passes(Event::Received { value, entered }, after)
    }
}

/// Whether `held` is what a channel holds before the first of these calls, and after each.
pub open spec fn history<T>(held: Seq<Held<T>>, events: Seq<Event<T>>) -> bool {
    &&& held.len() == events.len() + 1
    &&& forall|i: int|
        0 <= i < events.len() ==> held[i].passes(#[trigger] events[i], held[i + 1])
}

/// All values that went in, one after the other.
pub open spec fn sent<T>(events: Seq<Event<T>>) -> Seq<T>
    decreases events.len(),
{
    if events.len() == 0 {
        Seq::empty()
    } else {
        sent(events.drop_last()) + events.last().sent()
    }
}

/// All values that came out, one after the other.
pub open spec fn received<T>(events: Seq<Event<T>>) -> Seq<T>
    decreases events.len(),
{
    if events.len() == 0 {
        Seq::empty()
    } else {
        received(events.drop_last()) + events.last().received()
    }
}

proof fn lemma_shorter_history<T>(held: Seq<Held<T>>, events: Seq<Event<T>>, n: int)
    requires
        history(held, events),
        0 <= n <= events.len(),
    ensures
        history(held.take(n + 1), events.take(n)),
{
    assert forall|i: int| 0 <= i < n implies held.take(n + 1)[i].passes(
        #[trigger] events.take(n)[i],
        held.take(n + 1)[i + 1],
    ) by {
        assert(events.take(n)[i] == events[i]);
    }
}

proof fn lemma_nothing_lost<T>(held: Seq<Held<T>>, events: Seq<Event<T>>)
    requires
        history(held, events),
    ensures
        held[0].values + sent(events) =~= received(events) + held.last().values,
    decreases events.len(),
{
    if events.len() > 0 {
        let n = events.len() - 1;
        lemma_shorter_history(held, events, n);
        assert(events.take(n) =~= events.drop_last());
        lemma_nothing_lost(held.take(n + 1), events.drop_last());
        let event = events[n];
        assert(held[n].passes(event, held[n + 1]));
        assert(held.take(n + 1).last() == held[n]);
        assert(held[n].values + event.sent() =~= event.received() + held[n + 1].values);
        let (s, r) = (sent(events.drop_last()), received(events.drop_last()));
        assert(held[0].values + (s + event.sent()) =~= (held[0].values + s) + event.sent());
        assert((r + held[n].values) + event.sent() =~= r + (held[n].values + event.sent()));
        assert(r + (event.received() + held[n + 1].values) =~= (r + event.received()) + held[n
            + 1].values);
    }
}

proof fn lemma_stays_drained<T>(held: Seq<Held<T>>, events: Seq<Event<T>>, i: int, j: int)
    requires
        history(held, events),
        0 <= i <= j <= events.len(),
        held[i].drained(),
    ensures
        held[j].drained(),
        sent(events.take(j)) == sent(events.take(i)),
        received(events.take(j)) == received(events.take(i)),
    decreases j - i,
{
    if i < j {
        lemma_stays_drained(held, events, i, j - 1);
        assert(held[j - 1].passes(events[j - 1], held[j]));
        assert(events.take(j).drop_last() =~= events.take(j - 1));
        assert(events.take(j).last() == events[j - 1]);
        assert(sent(events.take(j)) =~= sent(events.take(j - 1)));
        assert(received(events.take(j)) =~= received(events.take(j - 1)));
    }
}

/// Whatever calls are made on a new channel, each value that was sent is received once, in the
/// order of sending, but for those that the channel still holds. A receive gives the oldest value
/// that was sent and not yet received. A receiver is told that no value will come only when all
/// that was sent has been received, and from then on nothing is sent or received any more.
pub proof fn law_history<T>(held: Seq<Held<T>>, events: Seq<Event<T>>, i: int)
    requires
        history(held, events),
        held[0].values.len() == 0,
        0 <= i < events.len(),
    ensures
        sent(events) == received(events) + held.last().values,
        received(events).is_prefix_of(sent(events)),
        events[i] matches Event::Received { value, entered: _ } ==> {
            &&& received(events.take(i)).len() < sent(events.take(i)).len()
            &&& value == sent(events.take(i))[received(events.take(i)).len() as int]
        },
        events[i] is Ended || held[i].drained() ==> {
            &&& received(events.take(i)) == sent(events.take(i))
            &&& held.last().drained()
            &&& sent(events) == sent(events.take(i))
            &&& received(events) == received(events.take(i))
        },
{
    lemma_nothing_lost(held, events);
    assert(held[0].values + sent(events) =~= sent(events));
    lemma_shorter_history(held, events, i);
    lemma_nothing_lost(held.take(i + 1), events.take(i));
    assert(held.take(i + 1).last() == held[i]);
    assert(held[0].values + sent(events.take(i)) =~= sent(events.take(i)));
    assert(held[i].passes(events[i], held[i + 1]));
    if held[i].drained() {
        assert(received(events.take(i)) + held[i].values =~= received(events.take(i)));
        lemma_stays_drained(held, events, i, events.len() as int);
        assert(events.take(events.len() as int) =~= events);
    }
}

/// The first value stays first until someone receives it, whatever else is called, and where no
/// value will come none will. So a receiver that is the only one, and was woken because there is a
/// value or because none will come, finds what it was woken for.
pub proof fn law_first_stays<T>(held: Seq<Held<T>>, events: Seq<Event<T>>)
    requires
        history(held, events),
        forall|i: int| 0 <= i < events.len() ==> !(#[trigger] events[i] is Received),
    ensures
        held[0].values.is_prefix_of(held.last().values),
        held[0].values.len() > 0 ==> held.last().values.len() > 0 && held.last().values[0]
            == held[0].values[0],
        held[0].drained() ==> held.last().drained(),
    decreases events.len(),
{
    if events.len() > 0 {
        let n = events.len() - 1;
        lemma_shorter_history(held, events, n);
        assert forall|i: int| 0 <= i < n implies !(#[trigger] events.take(n)[i] is Received) by {
            assert(events.take(n)[i] == events[i]);
        }
        law_first_stays(held.take(n + 1), events.take(n));
        assert(held[n].passes(events[n], held[n + 1]));
    }
}

} // verus!
