//! Parking of a thread until someone hands it a value.

use vstd::prelude::*;

use crate::error::PanicError;

verus! {

/// What a parked thread waits for.
pub enum Value<T, P> {
    Empty,
    Ready(T),
    Panic(PanicError<P>),
    Joined,
    Cancelled,
}

/// State between a parker and its unparkers, to be guarded by a lock.
pub struct State<T, P> {
    unparkers: usize,
    value: Value<T, P>,
}

/// Values of [State].
pub struct StateView<T, P> {
    /// Unparkers that have neither unparked nor gone, and those that have unparked.
    pub unparkers: nat,
    pub value: Value<T, P>,
}

/// Message of the panic for a parker that nobody can unpark any more.
pub const NO_UNPARKER: &'static str = "all unparkers dropped";

impl<T, P> View for State<T, P> {
    type V = StateView<T, P>;

    closed spec fn view(&self) -> StateView<T, P> {
        StateView { unparkers: self.unparkers as nat, value: self.value }
    }
}

impl<T, P> StateView<T, P> {
    /// Whether the parker has not gone.
    pub open spec fn parking(self) -> bool {
        !(self.value is Joined) && !(self.value is Cancelled)
    }

    /// Whether parking would not block.
    pub open spec fn ready(self) -> bool {
        self.value is Ready || self.value is Panic
    }

    pub open spec fn after_unpark(self, value: T) -> Self {
        if self.value is Empty {
            StateView { value: Value::Ready(value), ..self }
        } else {
            self
        }
    }

    pub open spec fn after_cancel(self) -> Self {
        if self.value is Empty {
            StateView { value: Value::Cancelled, ..self }
        } else {
            self
        }
    }

    pub open spec fn after_close(self) -> Self {
        StateView {
            unparkers: (self.unparkers - 1) as nat,
            value: if self.unparkers == 1 && self.value is Empty {
                Value::Panic(PanicError::Static(NO_UNPARKER))
            } else {
                self.value
            },
        }
    }

    pub open spec fn after_park(self) -> Self {
        if self.value is Empty {
            self
        } else {
            StateView { value: Value::Joined, ..self }
        }
    }
}

/// Outcome of one look at what the parker waits for.
pub enum Parking<T, P> {
    /// Park the thread and look again.
    Wait(Parker),
    Ready(T),
    /// Panic with this.
    Panic(PanicError<P>),
}

/// Waits for a value.
pub struct Parker {
    marker: (),
}

impl Parker {
    /// Takes the value if there is one.
    pub fn park<T, P>(self, state: &mut State<T, P>) -> (parking: Parking<T, P>)
        requires
            old(state)@.parking(),
        ensures
            final(state)@ == old(state)@.after_park(),
            match old(state)@.value {
                Value::Ready(value) => parking == Parking::<T, P>::Ready(value),
                Value::Panic(panic) => parking == Parking::<T, P>::Panic(panic),
                _ => parking is Wait,
            },
    {
        let mut value = Value::Joined;
        core::mem::swap(&mut value, &mut state.value);
        match value {
            Value::Ready(value) => Parking::Ready(value),
            Value::Panic(panic) => Parking::Panic(panic),
            _ => {
                state.value = Value::Empty;
                Parking::Wait(self)
            },
        }
    }

    /// Returns true if parking would not block.
    pub fn is_ready<T, P>(&self, state: &State<T, P>) -> (ready: bool)
        ensures
            ready == state@.ready(),
    {
        match &state.value {
            Value::Ready(_) => true,
            Value::Panic(_) => true,
            _ => false,
        }
    }

    /// Drops this parker.
    pub fn cancel<T, P>(self, state: &mut State<T, P>)
        ensures
            final(state)@ == old(state)@.after_cancel(),
    {
        let empty = match &state.value {
            Value::Empty => true,
            _ => false,
        };
        if empty {
            state.value = Value::Cancelled;
        }
    }
}

/// Hands a value to the parker.
pub struct Unparker {
    marker: (),
}

impl Unparker {
    /// Hands a value to the parker, whose thread has to be unparked then. Returns false if someone
    /// was before, or the parker has gone.
    pub fn unpark<T, P>(self, value: T, state: &mut State<T, P>) -> (unparked: bool)
        ensures
            unparked == old(state)@.value is Empty,
            final(state)@ == old(state)@.after_unpark(value),
    {
        match &state.value {
            Value::Empty => {
                state.value = Value::Ready(value);
                true
            },
            _ => false,
        }
    }

    /// Drops this unparker. Returns true if it was the last one and the parker's thread has to be
    /// unparked to panic.
    pub fn close<T, P>(self, state: &mut State<T, P>) -> (unpark: bool)
        requires
            old(state)@.unparkers > 0,
        ensures
            final(state)@ == old(state)@.after_close(),
            unpark == (old(state)@.unparkers == 1 && old(state)@.value is Empty),
    {
        state.unparkers = state.unparkers - 1;
        let empty = match &state.value {
            Value::Empty => true,
            _ => false,
        };
        if state.unparkers == 0 && empty {
            state.value = Value::Panic(PanicError::Static(NO_UNPARKER));
            true
        } else {
            false
        }
    }

    /// Constructs another unparker of the same parker.
    pub fn another<T, P>(&self, state: &mut State<T, P>) -> (unparker: Unparker)
        requires
            old(state)@.unparkers < usize::MAX,
        ensures
            final(state)@ == (StateView { unparkers: old(state)@.unparkers + 1, ..old(state)@ }),
    {
        state.unparkers = state.unparkers + 1;
        Unparker { marker: () }
    }
}

/// Constructs a parker and its first unparker.
pub fn parker<T, P>() -> (parker: (State<T, P>, Parker, Unparker))
    ensures
        parker.0@ == (StateView::<T, P> { unparkers: 1, value: Value::Empty }),
{
    (
        State { unparkers: 1, value: Value::Empty },
        Parker { marker: () },
        Unparker { marker: () },
    )
}

/// At most one value reaches the parker: once there is one, or the parker has gone, no step of
/// anyone makes room for another.
pub proof fn law_first_unpark_wins<T, P>(state: StateView<T, P>, value: T, other: T)
    ensures
        state.after_unpark(value).after_unpark(other) == state.after_unpark(value),
        !(state.after_unpark(value).value is Empty),
        !(state.value is Empty) ==> {
            &&& !(state.after_unpark(other).value is Empty)
            &&& !(state.after_cancel().value is Empty)
            &&& !(state.after_close().value is Empty)
            &&& !(state.after_park().value is Empty)
        },
{
}

/// The parker gets what was handed over first, whoever tries or goes in between.
pub proof fn law_parker_gets_first<T, P>(state: StateView<T, P>, value: T, other: T)
    requires
        state.value is Empty,
    ensures
        state.after_unpark(value).value == Value::<T, P>::Ready(value),
        state.after_unpark(value).after_unpark(other).value == Value::<T, P>::Ready(value),
        state.after_unpark(value).after_close().value == Value::<T, P>::Ready(value),
        state.after_close().after_unpark(value).value == if state.unparkers == 1 {
            Value::Panic(PanicError::Static(NO_UNPARKER))
        } else {
            Value::<T, P>::Ready(value)
        },
{
}

/// The parker gets the first value that is handed to it, and nobody else's: later ones are turned
/// away, and parking once more is not what it is for.
pub proof fn law_first_value_is_parked_for<T, P>(
    first: Unparker,
    second: Unparker,
    parker: Parker,
    value: T,
    other: T,
    unparking: &mut State<T, P>,
    again: &mut State<T, P>,
    parked: &mut State<T, P>,
    unparked: (bool, bool),
    ready: (bool, bool),
    parking: Parking<T, P>,
)
    requires
        old(unparking)@.value is Empty,
        call_ensures(Parker::is_ready::<T, P>, (&parker, old(unparking)), ready.0),
        call_ensures(Unparker::unpark::<T, P>, (first, value, unparking), unparked.0),
        *old(again) == *final(unparking),
        call_ensures(Unparker::unpark::<T, P>, (second, other, again), unparked.1),
        *old(parked) == *final(again),
        call_ensures(Parker::is_ready::<T, P>, (&parker, old(parked)), ready.1),
        call_ensures(Parker::park::<T, P>, (parker, parked), parking),
    ensures
        unparked == (true, false),
        ready == (false, true),
        parking == Parking::<T, P>::Ready(value),
        final(parked)@.value is Joined,
        final(parked)@.unparkers == old(unparking)@.unparkers,
{
}

/// Whoever looks before there is anything waits on, and nothing changes. A panic is passed on.
pub proof fn law_parks_until_unparked<T, P>(
    parker: Parker,
    state: &mut State<T, P>,
    parking: Parking<T, P>,
    ready: bool,
)
    requires
        call_ensures(Parker::park::<T, P>, (parker, state), parking),
        call_ensures(Parker::is_ready::<T, P>, (&parker, old(state)), ready),
    ensures
        final(state)@.unparkers == old(state)@.unparkers,
        old(state)@.value is Empty ==> parking is Wait && final(state)@.value is Empty && !ready,
        old(state)@.value matches Value::Ready(value) ==> {
            &&& parking == Parking::<T, P>::Ready(value)
            &&& final(state)@.value is Joined
            &&& ready
        },
        old(state)@.value matches Value::Panic(err) ==> {
            &&& parking == Parking::<T, P>::Panic(err)
            &&& final(state)@.value is Joined
            &&& ready
        },
        old(state)@.value is Joined || old(state)@.value is Cancelled ==> !ready,
{
}

/// A value is handed over if and only if there is none and the parker has not gone. Nothing changes
/// otherwise.
pub proof fn law_unpark<T, P>(
    unparker: Unparker,
    value: T,
    state: &mut State<T, P>,
    unparked: bool,
)
    requires
        call_ensures(Unparker::unpark::<T, P>, (unparker, value, state), unparked),
    ensures
        unparked <==> old(state)@.value is Empty,
        unparked ==> final(state)@.value == Value::<T, P>::Ready(value),
        !unparked ==> final(state)@.value == old(state)@.value,
        final(state)@.unparkers == old(state)@.unparkers,
{
}

/// The last unparker to go leaves a panic, if there is nothing else, and only then is there something
/// to unpark for. Another one is one more to go.
pub proof fn law_last_unparker<T, P>(
    unparker: Unparker,
    closing: &mut State<T, P>,
    unpark: bool,
    another: Unparker,
    adding: &mut State<T, P>,
)
    requires
        old(closing)@.unparkers > 0,
        call_ensures(Unparker::close::<T, P>, (unparker, closing), unpark),
        call_ensures(Unparker::another::<T, P>, (&unparker, adding), another),
    ensures
        final(closing)@.unparkers + 1 == old(closing)@.unparkers,
        unpark <==> final(closing)@.unparkers == 0 && old(closing)@.value is Empty,
        unpark ==> final(closing)@.value == Value::<T, P>::Panic(PanicError::Static(NO_UNPARKER)),
        !unpark ==> final(closing)@.value == old(closing)@.value,
        final(adding)@.unparkers == old(adding)@.unparkers + 1,
        final(adding)@.value == old(adding)@.value,
{
}

/// A parker that goes takes nothing with it, and is out of reach from then on. A new one has one
/// unparker and nothing to take.
pub proof fn law_parker_goes<T, P>(
    parker: Parker,
    cancelling: &mut State<T, P>,
    unparking: &mut State<T, P>,
    unparker: Unparker,
    value: T,
    unparked: bool,
    new: (State<T, P>, Parker, Unparker),
)
    requires
        call_ensures(Parker::cancel::<T, P>, (parker, cancelling), ()),
        *old(unparking) == *final(cancelling),
        call_ensures(Unparker::unpark::<T, P>, (unparker, value, unparking), unparked),
        call_ensures(self::parker::<T, P>, (), new),
    ensures
        old(cancelling)@.value is Empty ==> final(cancelling)@.value is Cancelled,
        !(old(cancelling)@.value is Empty) ==> final(cancelling)@.value == old(cancelling)@.value,
        final(cancelling)@.unparkers == old(cancelling)@.unparkers,
        !unparked,
        new.0@.unparkers == 1,
        new.0@.value is Empty,
{
}

} // verus!
