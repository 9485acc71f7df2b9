//! Rendezvous of one waiting session and any number of wakers.
//!
//! A session and its wakers share one word of status and one cell. Whoever moves the status to a
//! value without the release bit owns the cell until the bit is set again. All of them take their
//! steps on the shared word one at a time but in any order; [Protocol] is the state of everyone
//! involved, and its invariant holds whatever that order is.

use vstd::prelude::*;

use crate::error::PanicError;

verus! {

/// Status of a session. The least bit of its encoding is the release bit.
#[derive(Copy, Clone, Debug, PartialEq, Eq, Structural)]
pub enum SessionStatus {
    Empty,
    Value,
    Joining,
    Joined,
}

pub open spec fn status_bits(status: SessionStatus) -> usize {
    match status {
        SessionStatus::Empty => 0,
        SessionStatus::Value => 2,
        SessionStatus::Joining => 4,
        SessionStatus::Joined => 6,
    }
}

pub open spec fn release_bits(status: SessionStatus) -> usize {
    (status_bits(status) + 1) as usize
}

/// The status that a word encodes, whether released or not.
pub open spec fn bits_status(bits: usize) -> SessionStatus {
    if bits < 2 {
        SessionStatus::Empty
    } else if bits < 4 {
        SessionStatus::Value
    } else if bits < 6 {
        SessionStatus::Joining
    } else {
        SessionStatus::Joined
    }
}

impl SessionStatus {
    /// Encodes this status without the release bit.
    pub fn into_bits(self) -> (bits: usize)
        ensures
            bits == status_bits(self),
    {
        match self {
            SessionStatus::Empty => 0,
            SessionStatus::Value => 2,
            SessionStatus::Joining => 4,
            SessionStatus::Joined => 6,
        }
    }

    /// Encodes this status with the release bit.
    pub fn into_release(self) -> (bits: usize)
        ensures
            bits == release_bits(self),
    {
        let bits: usize = self.into_bits();
        assert(0usize | 1 == 1 && 2usize | 1 == 3 && 4usize | 1 == 5 && 6usize | 1 == 7)
            by (bit_vector);
        bits | 0x01
    }

    /// Decodes a status, with or without the release bit.
    pub fn from_bits(bits: usize) -> (status: SessionStatus)
        requires
            bits < 8,
        ensures
            status == bits_status(bits),
    {
        assert(bits < 8 ==> bits & !1usize == (if bits < 2 {
            0usize
        } else if bits < 4 {
            2usize
        } else if bits < 6 {
            4usize
        } else {
            6usize
        })) by (bit_vector);
        match bits & !0x01 {
            0 => SessionStatus::Empty,
            2 => SessionStatus::Value,
            4 => SessionStatus::Joining,
            _ => SessionStatus::Joined,
        }
    }
}

/// What a waker leaves for the session.
pub enum SessionValue<T, P> {
    Value(T),
    Panic(PanicError<P>),
}

impl<T, P> SessionValue<T, P> {
    /// Returns the value, or the panic that was sent instead of one.
    pub fn into_result(self) -> (result: Result<T, PanicError<P>>)
        ensures
            result == match self {
                SessionValue::Value(value) => Ok::<T, PanicError<P>>(value),
                SessionValue::Panic(err) => Err(err),
            },
    {
        match self {
            SessionValue::Value(value) => Ok(value),
            SessionValue::Panic(err) => Err(err),
        }
    }

    /// Returns the value of a session value that is known to have one.
    pub fn into_value(self) -> (value: T)
        requires
            self is Value,
        ensures
            self == SessionValue::<T, P>::Value(value),
    {
        match self {
            SessionValue::Value(value) => value,
            SessionValue::Panic(_) => {
                vstd::pervasive::unreached()
            },
        }
    }

    /// Returns the panic of a session value that is known to have one.
    pub fn into_panic(self) -> (err: PanicError<P>)
        requires
            self is Panic,
        ensures
            self == SessionValue::<T, P>::Panic(err),
    {
        match self {
            SessionValue::Panic(err) => err,
            SessionValue::Value(_) => {
                vstd::pervasive::unreached()
            },
        }
    }
}

/// Who waits for a session: a coroutine of a task, or a thread that runs no task.
pub enum SessionJoiner<K, H> {
    Task { task: K },
    Thread { thread: H },
}

/// Contents of the shared cell.
pub enum SessionState<T, P, K, H> {
    Zeroed,
    Value(SessionValue<T, P>),
    Joiner(SessionJoiner<K, H>),
}

/// What a session and its wakers share.
pub struct SessionJoint<T, P, K, H> {
    status: usize,
    state: SessionState<T, P, K, H>,
    wakers: usize,
}

/// The shared word and the shared cell.
pub struct JointView<T, P, K, H> {
    pub status: usize,
    pub state: SessionState<T, P, K, H>,
}

/// A waker on its way to set a value. Each variant is named after the next step.
pub enum Setting<T, P, K, H> {
    /// Reads the status.
    Load { value: SessionValue<T, P> },
    /// Contends for a session that nobody has come to yet.
    ClaimEmpty { value: SessionValue<T, P> },
    /// Contends for a session that waits.
    ClaimJoining { value: SessionValue<T, P> },
    /// Owns the empty cell: fills and releases it.
    Fill { value: SessionValue<T, P> },
    /// Owns the cell that holds who waits: puts the value in its place.
    Swap { value: SessionValue<T, P> },
    /// Owns the cell that holds the value. A waiting thread is unparked before this step, a
    /// waiting task is woken after it.
    Release { joiner: SessionJoiner<K, H> },
    /// Left the value and knows who waits for it, or has it back.
    Done { result: Result<Option<SessionJoiner<K, H>>, SessionValue<T, P>> },
}

/// The next step of a waker that has seen `status`.
pub open spec fn set_seen<T, P, K, H>(
    status: SessionStatus,
    value: SessionValue<T, P>,
) -> Setting<T, P, K, H> {
    match status {
        SessionStatus::Empty => Setting::ClaimEmpty { value },
        SessionStatus::Joining => Setting::ClaimJoining { value },
        _ => Setting::Done { result: Err(value) },
    }
}

/// One step of a waker.
pub open spec fn set_step<T, P, K, H>(
    joint: JointView<T, P, K, H>,
    setting: Setting<T, P, K, H>,
) -> (JointView<T, P, K, H>, Setting<T, P, K, H>) {
    match setting {
        Setting::Load { value } => (joint, set_seen(bits_status(joint.status), value)),
        Setting::ClaimEmpty { value } => if joint.status == 0 {
            (
                JointView { status: status_bits(SessionStatus::Value), ..joint },
                Setting::Fill { value },
            )
        } else if bits_status(joint.status) == SessionStatus::Joining {
            (joint, Setting::ClaimJoining { value })
        } else {
            (joint, Setting::Done { result: Err(value) })
        },
        Setting::ClaimJoining { value } => if joint.status == release_bits(
            SessionStatus::Joining,
        ) {
            (
                JointView { status: status_bits(SessionStatus::Value), ..joint },
                Setting::Swap { value },
            )
        } else if bits_status(joint.status) == SessionStatus::Joining {
            (joint, Setting::ClaimJoining { value })
        } else {
            (joint, Setting::Done { result: Err(value) })
        },
        Setting::Fill { value } => (
            JointView {
                status: release_bits(SessionStatus::Value),
                state: SessionState::Value(value),
            },
            Setting::Done { result: Ok(None) },
        ),
        Setting::Swap { value } => match joint.state {
            SessionState::Joiner(joiner) => (
                JointView { state: SessionState::Value(value), ..joint },
                Setting::Release { joiner },
            ),
            _ => (joint, setting),
        },
        Setting::Release { joiner } => (
            JointView { status: release_bits(SessionStatus::Value), ..joint },
            Setting::Done { result: Ok(Some(joiner)) },
        ),
        Setting::Done { result } => (joint, setting),
    }
}

/// A session on its way to a value, or on its way out. Each variant is named after the next step.
pub enum Joining<T, P, K, H> {
    /// Reads the status.
    Load { joiner: SessionJoiner<K, H> },
    /// Contends for a session that no waker has come to yet.
    ClaimEmpty { joiner: SessionJoiner<K, H> },
    /// Owns the empty cell: leaves who waits in it and releases it.
    Fill { joiner: SessionJoiner<K, H> },
    /// Sleeps, and reads the status when woken.
    Wait,
    /// Contends for the value.
    Take,
    /// Has the value.
    Done { value: SessionValue<T, P> },
    /// Reads the status of a session that is dropped.
    Leave,
    /// Contends to leave before a waker comes.
    LeaveEmpty,
    /// Contends for a value that nobody will read.
    LeaveValue,
    /// Has left.
    Left,
    /// Found a status that no other party can produce.
    Broken,
}

/// The next step of a session that has seen `status` and has no cell to fill.
pub open spec fn join_seen<T, P, K, H>(status: SessionStatus) -> Joining<T, P, K, H> {
    match status {
        SessionStatus::Value => Joining::Take,
        _ => Joining::Broken,
    }
}

pub open spec fn leave_seen<T, P, K, H>(status: SessionStatus) -> Joining<T, P, K, H> {
    match status {
        SessionStatus::Value => Joining::LeaveValue,
        _ => Joining::Left,
    }
}

/// One step of a session.
pub open spec fn join_step<T, P, K, H>(
    joint: JointView<T, P, K, H>,
    joining: Joining<T, P, K, H>,
) -> (JointView<T, P, K, H>, Joining<T, P, K, H>) {
    let status = bits_status(joint.status);
    match joining {
        Joining::Load { joiner } => if status == SessionStatus::Empty {
            (joint, Joining::ClaimEmpty { joiner })
        } else {
            (joint, join_seen(status))
        },
        Joining::ClaimEmpty { joiner } => if joint.status == 0 {
            (
                JointView { status: status_bits(SessionStatus::Joining), ..joint },
                Joining::Fill { joiner },
            )
        } else {
            (joint, join_seen(status))
        },
        Joining::Fill { joiner } => (
            JointView {
                status: release_bits(SessionStatus::Joining),
                state: SessionState::Joiner(joiner),
            },
            Joining::Wait,
        ),
        Joining::Wait => if status == SessionStatus::Joining {
            (joint, Joining::Wait)
        } else {
            (joint, join_seen(status))
        },
        Joining::Take => if joint.status == release_bits(SessionStatus::Value) {
            match joint.state {
                SessionState::Value(value) => (
                    JointView {
                        status: release_bits(SessionStatus::Joined),
                        state: SessionState::Zeroed,
                    },
                    Joining::Done { value },
                ),
                _ => (joint, Joining::Broken),
            }
        } else {
            (joint, join_seen(status))
        },
        Joining::Leave => if status == SessionStatus::Empty {
            (joint, Joining::LeaveEmpty)
        } else {
            (joint, leave_seen(status))
        },
        Joining::LeaveEmpty => if joint.status == 0 {
            (
                JointView { status: release_bits(SessionStatus::Joined), ..joint },
                Joining::Left,
            )
        } else {
            (joint, leave_seen(status))
        },
        Joining::LeaveValue => if joint.status == release_bits(SessionStatus::Value) {
            (
                JointView {
                    status: release_bits(SessionStatus::Joined),
                    state: SessionState::Zeroed,
                },
                Joining::Left,
            )
        } else {
            (joint, leave_seen(status))
        },
        Joining::Done { value } => (joint, joining),
        Joining::Left => (joint, joining),
        Joining::Broken => (joint, joining),
    }
}

/// Everyone involved in one session: the session, and the wakers that have come so far. `values`
/// are what the wakers brought.
pub struct Protocol<T, P, K, H> {
    pub joint: JointView<T, P, K, H>,
    pub joiner: SessionJoiner<K, H>,
    pub session: Joining<T, P, K, H>,
    pub values: Seq<SessionValue<T, P>>,
    pub wakers: Seq<Setting<T, P, K, H>>,
}

/// A waker that owns the cell.
pub open spec fn owns<T, P, K, H>(setting: Setting<T, P, K, H>) -> bool {
    setting is Fill || setting is Swap || setting is Release
}

/// A waker whose value went to the session.
pub open spec fn won<T, P, K, H>(setting: Setting<T, P, K, H>) -> bool {
    setting matches Setting::Done { result: Ok(_) }
}

impl<T, P, K, H> Protocol<T, P, K, H> {
    /// Before anyone takes a step: a session that will wait as `joiner`.
    pub open spec fn initial(self) -> bool {
        &&& self.joint.status == 0
        &&& self.session == Joining::<T, P, K, H>::Load { joiner: self.joiner } || self.session
            == Joining::<T, P, K, H>::Leave
        &&& self.values.len() == 0
        &&& self.wakers.len() == 0
    }

    /// A waker comes with a value.
    pub open spec fn arrive(self, value: SessionValue<T, P>) -> Self {
        Protocol {
            values: self.values.push(value),
            wakers: self.wakers.push(Setting::Load { value }),
            ..self
        }
    }

    /// The waker `i` takes a step.
    pub open spec fn waker_step(self, i: int) -> Self {
        let (joint, setting) = set_step(self.joint, self.wakers[i]);
        Protocol { joint, wakers: self.wakers.update(i, setting), ..self }
    }

    /// The session takes a step.
    pub open spec fn session_step(self) -> Self {
        let (joint, session) = join_step(self.joint, self.session);
        Protocol { joint, session, ..self }
    }

    /// A waker holds what it brought until it parts with it.
    pub open spec fn waker_inv(self, i: int) -> bool {
        match self.wakers[i] {
            Setting::Load { value } => value == self.values[i],
            Setting::ClaimEmpty { value } => value == self.values[i],
            Setting::ClaimJoining { value } => value == self.values[i],
            Setting::Fill { value } => value == self.values[i],
            Setting::Swap { value } => {
                &&& value == self.values[i]
                &&& self.joint.state == SessionState::<T, P, K, H>::Joiner(self.joiner)
                &&& self.session is Wait || self.session is Take
            },
            Setting::Release { joiner } => {
                &&& joiner == self.joiner
                &&& self.joint.state == SessionState::<T, P, K, H>::Value(self.values[i])
            },
            Setting::Done { result: Ok(joiner) } => {
                &&& self.joint.status == 3 ==> self.joint.state == SessionState::<T, P, K, H>::Value(
                    self.values[i],
                )
                &&& self.session is Wait ==> joiner == Some(self.joiner)
                &&& self.joint.status == 3 || self.joint.status == 7
                &&& self.session matches Joining::Done { value } ==> value == self.values[i]
            },
            Setting::Done { result: Err(value) } => value == self.values[i],
        }
    }

    /// Someone owns the cell exactly while the release bit is off, at most one waker wins, and
    /// what the session finds is what that waker left.
    pub open spec fn inv(self) -> bool {
        let status = self.joint.status;
        &&& self.values.len() == self.wakers.len()
        &&& status == 0 || status == 2 || status == 3 || status == 4 || status == 5 || status == 7
        &&& forall|i: int| 0 <= i < self.wakers.len() ==> #[trigger] self.waker_inv(i)
        &&& forall|i: int, j: int|
            #![trigger self.wakers[i], self.wakers[j]]
            0 <= i < self.wakers.len() && 0 <= j < self.wakers.len() && (owns(self.wakers[i])
                || won(self.wakers[i])) && (owns(self.wakers[j]) || won(self.wakers[j])) ==> i == j
        &&& forall|i: int| #![trigger self.wakers[i]]
            0 <= i < self.wakers.len() && owns(self.wakers[i]) ==> status == 2
        &&& status == 2 ==> exists|i: int| #![trigger self.wakers[i]]
            0 <= i < self.wakers.len() && owns(self.wakers[i])
        &&& status == 3 ==> exists|i: int| #![trigger self.wakers[i]]
            0 <= i < self.wakers.len() && won(self.wakers[i])
        &&& match self.session {
            Joining::Load { joiner } => joiner == self.joiner && (status == 0 || status == 2
                || status == 3),
            Joining::ClaimEmpty { joiner } => joiner == self.joiner && (status == 0 || status == 2
                || status == 3),
            Joining::Fill { joiner } => joiner == self.joiner && status == 4,
            Joining::Wait => (status == 5 && self.joint.state == SessionState::<
                T,
                P,
                K,
                H,
            >::Joiner(self.joiner)) || status == 2 || status == 3,
            Joining::Take => status == 2 || status == 3,
            Joining::Done { value } => status == 7 && exists|i: int| #![trigger self.wakers[i]]
                0 <= i < self.wakers.len() && won(self.wakers[i]),
            Joining::Leave => status == 0 || status == 2 || status == 3,
            Joining::LeaveEmpty => status == 0 || status == 2 || status == 3,
            Joining::LeaveValue => status == 2 || status == 3,
            Joining::Left => status == 7,
            Joining::Broken => false,
        }
        &&& status == 4 ==> self.session is Fill
        &&& status == 5 ==> self.session is Wait
        &&& status == 7 ==> self.session is Done || self.session is Left
        &&& self.session is Wait ==> forall|i: int| #![trigger self.wakers[i]]
            0 <= i < self.wakers.len() ==> !(self.wakers[i] is Fill)
    }
}

/// The protocol starts well.
pub proof fn law_protocol_initial<T, P, K, H>(protocol: Protocol<T, P, K, H>)
    requires
        protocol.initial(),
    ensures
        protocol.inv(),
{
}

/// A waker may come at any time.
pub proof fn law_protocol_arrive<T, P, K, H>(
    protocol: Protocol<T, P, K, H>,
    value: SessionValue<T, P>,
)
    requires
        protocol.inv(),
    ensures
        protocol.arrive(value).inv(),
{
    let next = protocol.arrive(value);
    let n = protocol.wakers.len() as int;
    assert forall|i: int| 0 <= i < next.wakers.len() implies #[trigger] next.waker_inv(i) by {
        if i < n {
            assert(protocol.waker_inv(i));
        }
    }
    if protocol.joint.status == 2 {
        let i = choose|i: int| #![trigger protocol.wakers[i]]
            0 <= i < protocol.wakers.len() && owns(protocol.wakers[i]);
        assert(next.wakers[i] == protocol.wakers[i]);
    }
    if protocol.joint.status == 3 || protocol.session is Done {
        let i = choose|i: int| #![trigger protocol.wakers[i]]
            0 <= i < protocol.wakers.len() && won(protocol.wakers[i]);
        assert(next.wakers[i] == protocol.wakers[i]);
    }
}

/// Whichever waker takes the next step, the protocol stays well.
pub proof fn law_protocol_waker_step<T, P, K, H>(protocol: Protocol<T, P, K, H>, i: int)
    requires
        protocol.inv(),
        0 <= i < protocol.wakers.len(),
    ensures
        protocol.waker_step(i).inv(),
{
    let next = protocol.waker_step(i);
    assert(protocol.waker_inv(i));
    assert forall|j: int| 0 <= j < next.wakers.len() implies #[trigger] next.waker_inv(j) by {
        assert(protocol.waker_inv(j));
        assert(protocol.wakers[j] == protocol.wakers[j]);
        if j != i {
            assert(next.wakers[j] == protocol.wakers[j]);
        }
    }
    assert(next.wakers[i] == set_step(protocol.joint, protocol.wakers[i]).1);
    assert forall|j: int, k: int|
        #![trigger next.wakers[j], next.wakers[k]]
        0 <= j < next.wakers.len() && 0 <= k < next.wakers.len() && (owns(next.wakers[j]) || won(
            next.wakers[j],
        )) && (owns(next.wakers[k]) || won(next.wakers[k])) implies j == k by {
        assert(protocol.waker_inv(j) && protocol.waker_inv(k));
        assert(j != i ==> next.wakers[j] == protocol.wakers[j]);
        assert(k != i ==> next.wakers[k] == protocol.wakers[k]);
    }
    if protocol.joint.status == 2 {
        let k = choose|k: int| #![trigger protocol.wakers[k]]
            0 <= k < protocol.wakers.len() && owns(protocol.wakers[k]);
        assert(k != i ==> next.wakers[k] == protocol.wakers[k]);
    }
    if protocol.joint.status == 3 || protocol.session is Done {
        let k = choose|k: int| #![trigger protocol.wakers[k]]
            0 <= k < protocol.wakers.len() && won(protocol.wakers[k]);
        assert(k != i ==> next.wakers[k] == protocol.wakers[k]);
    }
}

/// The session may take the next step too.
pub proof fn law_protocol_session_step<T, P, K, H>(protocol: Protocol<T, P, K, H>)
    requires
        protocol.inv(),
    ensures
        protocol.session_step().inv(),
{
    let next = protocol.session_step();
    assert forall|j: int| 0 <= j < next.wakers.len() implies #[trigger] next.waker_inv(j) by {
        assert(protocol.waker_inv(j));
        assert(next.wakers[j] == protocol.wakers[j]);
    }
    if protocol.joint.status == 3 {
        let k = choose|k: int| #![trigger protocol.wakers[k]]
            0 <= k < protocol.wakers.len() && won(protocol.wakers[k]);
        assert(protocol.waker_inv(k));
        assert(next.wakers[k] == protocol.wakers[k]);
    }
    if protocol.joint.status == 2 {
        let k = choose|k: int| #![trigger protocol.wakers[k]]
            0 <= k < protocol.wakers.len() && owns(protocol.wakers[k]);
        assert(next.wakers[k] == protocol.wakers[k]);
    }
}

/// At most one of the wakers sends.
pub proof fn law_at_most_one_wins<T, P, K, H>(protocol: Protocol<T, P, K, H>, i: int, j: int)
    requires
        protocol.inv(),
        0 <= i < protocol.wakers.len(),
        0 <= j < protocol.wakers.len(),
        won(protocol.wakers[i]),
        won(protocol.wakers[j]),
    ensures
        i == j,
{
}

/// A session that has waited to its end has what one waker brought, and that waker sent it.
pub proof fn law_session_has_what_was_sent<T, P, K, H>(
    protocol: Protocol<T, P, K, H>,
    value: SessionValue<T, P>,
) -> (i: int)
    requires
        protocol.inv(),
        protocol.session == (Joining::<T, P, K, H>::Done { value }),
    ensures
        0 <= i < protocol.wakers.len(),
        won(protocol.wakers[i]),
        protocol.values[i] == value,
{
    let i = choose|i: int| #![trigger protocol.wakers[i]]
        0 <= i < protocol.wakers.len() && won(protocol.wakers[i]);
    assert(protocol.waker_inv(i));
    i
}

/// No value lingers after a panic: if the session ends with a panic then nobody sent a value, and
/// whoever is done trying has its value back.
pub proof fn law_no_value_after_panic<T, P, K, H>(
    protocol: Protocol<T, P, K, H>,
    err: PanicError<P>,
    i: int,
)
    requires
        protocol.inv(),
        protocol.session == (Joining::<T, P, K, H>::Done { value: SessionValue::Panic(err) }),
        0 <= i < protocol.wakers.len(),
        protocol.values[i] is Value,
    ensures
        !won(protocol.wakers[i]),
        protocol.wakers[i] is Done ==> protocol.wakers[i] == (Setting::<T, P, K, H>::Done {
            result: Err(protocol.values[i]),
        }),
{
    let k = law_session_has_what_was_sent(protocol, SessionValue::Panic(err));
    assert(protocol.waker_inv(i));
    if won(protocol.wakers[i]) {
        assert(protocol.wakers[k] == protocol.wakers[k]);
        assert(i == k);
    }
}

/// A waker that sends to a session which sleeps knows whom to wake.
pub proof fn law_sleeper_is_known<T, P, K, H>(protocol: Protocol<T, P, K, H>, i: int)
    requires
        protocol.inv(),
        protocol.session is Wait,
        0 <= i < protocol.wakers.len(),
        won(protocol.wakers[i]),
    ensures
        protocol.wakers[i] == (Setting::<T, P, K, H>::Done { result: Ok(Some(protocol.joiner)) }),
{
    assert(protocol.waker_inv(i));
}

/// A waker that comes after the session has left has its value back.
pub proof fn law_too_late<T, P, K, H>(protocol: Protocol<T, P, K, H>, value: SessionValue<T, P>)
    requires
        protocol.inv(),
        protocol.session is Done || protocol.session is Left,
    ensures
        ({
            let late = protocol.arrive(value);
            let i = protocol.wakers.len() as int;
            late.waker_step(i).wakers[i] == (Setting::<T, P, K, H>::Done { result: Err(value) })
        }),
{
}

impl<T, P, K, H> View for SessionJoint<T, P, K, H> {
    type V = JointView<T, P, K, H>;

    closed spec fn view(&self) -> JointView<T, P, K, H> {
        JointView { status: self.status, state: self.state }
    }
}

impl<T, P, K, H> JointView<T, P, K, H> {
    /// The word encodes a status.
    pub open spec fn encoded(self) -> bool {
        self.status < 8
    }

    /// Nobody is between two steps: the word is released, and the cell holds what it says.
    pub open spec fn settled(self) -> bool {
        ||| self.status == 0
        ||| self.status == release_bits(SessionStatus::Value) && self.state is Value
        ||| self.status == release_bits(SessionStatus::Joining) && self.state is Joiner
        ||| self.status == release_bits(SessionStatus::Joined)
    }

    pub open spec fn filled(value: SessionValue<T, P>) -> Self {
        JointView {
            status: release_bits(SessionStatus::Value),
            state: SessionState::Value(value),
        }
    }

    /// What setting a value without interleaving leaves.
    pub open spec fn after_set(self, value: SessionValue<T, P>) -> Self {
        if self.status == 0 || self.status == release_bits(SessionStatus::Joining) {
            JointView::filled(value)
        } else {
            self
        }
    }

    /// What setting a value without interleaving returns.
    pub open spec fn set_result(self, value: SessionValue<T, P>) -> Result<
        Option<SessionJoiner<K, H>>,
        SessionValue<T, P>,
    > {
        if self.status == 0 {
            Ok(None)
        } else if self.status == release_bits(SessionStatus::Joining) {
            Ok(Some(self.state->Joiner_0))
        } else {
            Err(value)
        }
    }
}

/// Panic of a session that is left without wakers.
pub const NO_WAKEUP: &'static str = "session: no wakeup";

/// Outcome of a session's attempt to read its value.
pub enum JoinFlow<T, P> {
    /// Nothing has come yet: sleep, and try [SessionJoint::join_again] when woken.
    Wait,
    Ready { value: SessionValue<T, P> },
}

impl<T, P, K, H> SessionJoint<T, P, K, H> {
    /// Number of wakers that have neither woken the session nor been dropped.
    pub closed spec fn waker_count(&self) -> usize {
        self.wakers
    }

    /// Constructs a joint for a session and its first waker.
    pub fn new() -> (joint: Self)
        ensures
            joint@ == (JointView::<T, P, K, H> { status: 0, state: SessionState::Zeroed }),
            joint.waker_count() == 1,
    {
        SessionJoint { status: 0, state: SessionState::Zeroed, wakers: 1 }
    }

    /// Returns the status, whether released or not.
    pub fn status(&self) -> (status: SessionStatus)
        requires
            self@.encoded(),
        ensures
            status == bits_status(self@.status),
    {
        SessionStatus::from_bits(self.status)
    }

    /// Checks whether waiting will not block.
    pub fn is_ready(&self) -> (ready: bool)
        requires
            self@.encoded(),
        ensures
            ready <==> self@.status == 2 || self@.status == 3 || self@.status == 6 || self@.status
                == 7,
    {
        let status = self.status();
        matches!(status, SessionStatus::Value | SessionStatus::Joined)
    }

    /// Takes the next step of a waker.
    pub fn set_step(&mut self, setting: Setting<T, P, K, H>) -> (next: Setting<T, P, K, H>)
        requires
            old(self)@.encoded(),
        ensures
            (final(self)@, next) == set_step(old(self)@, setting),
            final(self)@.encoded(),
            final(self).waker_count() == old(self).waker_count(),
    {
        match setting {
            Setting::Load { value } => match self.status() {
                SessionStatus::Empty => Setting::ClaimEmpty { value },
                SessionStatus::Joining => Setting::ClaimJoining { value },
                _ => Setting::Done { result: Err(value) },
            },
            Setting::ClaimEmpty { value } => {
                if self.status == 0 {
                    self.status = SessionStatus::Value.into_bits();
                    Setting::Fill { value }
                } else if self.status() == SessionStatus::Joining {
                    Setting::ClaimJoining { value }
                } else {
                    Setting::Done { result: Err(value) }
                }
            },
            Setting::ClaimJoining { value } => {
                if self.status == SessionStatus::Joining.into_release() {
                    self.status = SessionStatus::Value.into_bits();
                    Setting::Swap { value }
                } else if self.status() == SessionStatus::Joining {
                    Setting::ClaimJoining { value }
                } else {
                    Setting::Done { result: Err(value) }
                }
            },
            Setting::Fill { value } => {
                self.state = SessionState::Value(value);
                self.status = SessionStatus::Value.into_release();
                Setting::Done { result: Ok(None) }
            },
            Setting::Swap { value } => {
                let mut state = SessionState::Zeroed;
                core::mem::swap(&mut state, &mut self.state);
                match state {
                    SessionState::Joiner(joiner) => {
                        self.state = SessionState::Value(value);
                        Setting::Release { joiner }
                    },
                    state => {
                        self.state = state;
                        Setting::Swap { value }
                    },
                }
            },
            Setting::Release { joiner } => {
                self.status = SessionStatus::Value.into_release();
                Setting::Done { result: Ok(Some(joiner)) }
            },
            Setting::Done { result } => Setting::Done { result },
        }
    }

    /// Takes the next step of the session.
    pub fn join_step(&mut self, joining: Joining<T, P, K, H>) -> (next: Joining<T, P, K, H>)
        requires
            old(self)@.encoded(),
        ensures
            (final(self)@, next) == join_step(old(self)@, joining),
            final(self)@.encoded(),
            final(self).waker_count() == old(self).waker_count(),
    {
        let status = self.status();
        match joining {
            Joining::Load { joiner } => {
                if status == SessionStatus::Empty {
                    Joining::ClaimEmpty { joiner }
                } else if status == SessionStatus::Value {
                    Joining::Take
                } else {
                    Joining::Broken
                }
            },
            Joining::ClaimEmpty { joiner } => {
                if self.status == 0 {
                    self.status = SessionStatus::Joining.into_bits();
                    Joining::Fill { joiner }
                } else if status == SessionStatus::Value {
                    Joining::Take
                } else {
                    Joining::Broken
                }
            },
            Joining::Fill { joiner } => {
                self.state = SessionState::Joiner(joiner);
                self.status = SessionStatus::Joining.into_release();
                Joining::Wait
            },
            Joining::Wait => {
                if status == SessionStatus::Joining {
                    Joining::Wait
                } else if status == SessionStatus::Value {
                    Joining::Take
                } else {
                    Joining::Broken
                }
            },
            Joining::Take => {
                if self.status == SessionStatus::Value.into_release() {
                    let mut state = SessionState::Zeroed;
                    core::mem::swap(&mut state, &mut self.state);
                    match state {
                        SessionState::Value(value) => {
                            self.status = SessionStatus::Joined.into_release();
                            Joining::Done { value }
                        },
                        state => {
                            self.state = state;
                            Joining::Broken
                        },
                    }
                } else if status == SessionStatus::Value {
                    Joining::Take
                } else {
                    Joining::Broken
                }
            },
            Joining::Leave => {
                if status == SessionStatus::Empty {
                    Joining::LeaveEmpty
                } else if status == SessionStatus::Value {
                    Joining::LeaveValue
                } else {
                    Joining::Left
                }
            },
            Joining::LeaveEmpty => {
                if self.status == 0 {
                    self.status = SessionStatus::Joined.into_release();
                    Joining::Left
                } else if status == SessionStatus::Value {
                    Joining::LeaveValue
                } else {
                    Joining::Left
                }
            },
            Joining::LeaveValue => {
                if self.status == SessionStatus::Value.into_release() {
                    self.status = SessionStatus::Joined.into_release();
                    self.state = SessionState::Zeroed;
                    Joining::Left
                } else if status == SessionStatus::Value {
                    Joining::LeaveValue
                } else {
                    Joining::Left
                }
            },
            Joining::Done { value } => Joining::Done { value },
            Joining::Left => Joining::Left,
            Joining::Broken => Joining::Broken,
        }
    }

    /// Leaves a value for the session, and returns who waits for it. Returns the value if the
    /// session has another one already, or is gone.
    pub fn set_value(&mut self, value: SessionValue<T, P>) -> (result: Result<
        Option<SessionJoiner<K, H>>,
        SessionValue<T, P>,
    >)
        requires
            old(self)@.settled(),
        ensures
            final(self)@.settled(),
            final(self)@ == old(self)@.after_set(value),
            result == old(self)@.set_result(value),
            final(self).waker_count() == old(self).waker_count(),
    {
        let mut setting: Setting<T, P, K, H> = Setting::Load { value };
        let ghost mut left = 4int;
        loop
            invariant_except_break
                old(self)@.settled(),
                self.waker_count() == old(self).waker_count(),
                self@.encoded(),
                match setting {
                    Setting::Load { value: v } => v == value && self@ == old(self)@ && left == 4,
                    Setting::ClaimEmpty { value: v } => v == value && self@ == old(self)@
                        && self@.status == 0 && left == 3,
                    Setting::ClaimJoining { value: v } => v == value && self@ == old(self)@
                        && self@.status == 5 && left == 3,
                    Setting::Fill { value: v } => v == value && old(self)@.status == 0 && left == 2,
                    Setting::Swap { value: v } => v == value && old(self)@.status == 5
                        && self@.state == old(self)@.state && self@.state is Joiner && left == 2,
                    Setting::Release { joiner } => old(self)@.status == 5 && old(self)@.state
                        == SessionState::<T, P, K, H>::Joiner(joiner) && self@.state
                        == SessionState::<T, P, K, H>::Value(value) && left == 1,
                    Setting::Done { result } => result == old(self)@.set_result(value) && self@
                        == old(self)@.after_set(value) && left >= 0,
                },
            ensures
                setting == (Setting::<T, P, K, H>::Done {
                    result: old(self)@.set_result(value),
                }),
                self@ == old(self)@.after_set(value),
                self.waker_count() == old(self).waker_count(),
            decreases left + (if setting is Done { 0int } else { 1 }),
        {
            if let Setting::Done { .. } = setting {
                break;
            }
            setting = self.set_step(setting);
            proof {
                left = left - 1;
            }
        }
        match setting {
            Setting::Done { result } => result,
            _ => {
                vstd::pervasive::unreached()
            },
        }
    }

    /// Wakes the session with a value. Returns who waits for it, or the value if it is refused.
    pub fn wake(&mut self, value: T) -> (result: Result<Option<SessionJoiner<K, H>>, T>)
        requires
            old(self)@.settled(),
        ensures
            final(self)@.settled(),
            final(self)@ == old(self)@.after_set(SessionValue::Value(value)),
            result == match old(self)@.set_result(SessionValue::Value(value)) {
                Ok(joiner) => Ok::<_, T>(joiner),
                Err(_) => Err(value),
            },
            final(self).waker_count() == old(self).waker_count(),
    {
        match self.set_value(SessionValue::Value(value)) {
            Err(value) => Err(value.into_value()),
            Ok(joiner) => Ok(joiner),
        }
    }

    /// Ends the session with a panic. Returns who waits for it, or the panic if it is refused.
    pub fn cancel(&mut self, err: PanicError<P>) -> (result: Result<
        Option<SessionJoiner<K, H>>,
        PanicError<P>,
    >)
        requires
            old(self)@.settled(),
        ensures
            final(self)@.settled(),
            final(self)@ == old(self)@.after_set(SessionValue::Panic(err)),
            result == match old(self)@.set_result(SessionValue::Panic(err)) {
                Ok(joiner) => Ok::<_, PanicError<P>>(joiner),
                Err(_) => Err(err),
            },
            final(self).waker_count() == old(self).waker_count(),
    {
        match self.set_value(SessionValue::Panic(err)) {
            Err(value) => Err(value.into_panic()),
            Ok(joiner) => Ok(joiner),
        }
    }

    /// Ends the session with a panic if it still waits. Returns who waits for it.
    pub fn fault(&mut self, err: PanicError<P>) -> (joiner: Option<SessionJoiner<K, H>>)
        requires
            old(self)@.settled(),
        ensures
            final(self)@.settled(),
            final(self)@ == old(self)@.after_set(SessionValue::Panic(err)),
            joiner == match old(self)@.set_result(SessionValue::Panic(err)) {
                Ok(joiner) => joiner,
                Err(_) => None,
            },
            final(self).waker_count() == old(self).waker_count(),
    {
        match self.cancel(err) {
            Ok(joiner) => joiner,
            Err(_) => None,
        }
    }

    /// Ends the wait of an interrupted coroutine. Returns false if a waker was faster.
    pub fn interrupt(&mut self, reason: &'static str) -> (interrupted: bool)
        requires
            old(self)@.settled(),
        ensures
            final(self)@.settled(),
            final(self)@ == old(self)@.after_set(SessionValue::Panic(PanicError::Static(reason))),
            interrupted <==> old(self)@.status == 0 || old(self)@.status == release_bits(
                SessionStatus::Joining,
            ),
            final(self).waker_count() == old(self).waker_count(),
    {
        self.cancel(PanicError::Static(reason)).is_ok()
    }

    /// Counts one more waker.
    pub fn add_waker(&mut self)
        requires
            old(self).waker_count() < usize::MAX,
        ensures
            final(self)@ == old(self)@,
            final(self).waker_count() == old(self).waker_count() + 1,
    {
        self.wakers = self.wakers + 1;
    }

    /// Counts one waker less. The last one to go ends the session. Returns who waits for it.
    pub fn remove_waker(&mut self) -> (joiner: Option<SessionJoiner<K, H>>)
        requires
            old(self)@.settled(),
            old(self).waker_count() > 0,
        ensures
            final(self)@.settled(),
            final(self).waker_count() == old(self).waker_count() - 1,
            old(self).waker_count() > 1 ==> joiner is None && final(self)@ == old(self)@,
            old(self).waker_count() == 1 ==> {
                let panic = SessionValue::Panic(PanicError::Static(NO_WAKEUP));
                &&& final(self)@ == old(self)@.after_set(panic)
                &&& joiner == match old(self)@.set_result(panic) {
                    Ok(joiner) => joiner,
                    Err(_) => None,
                }
            },
    {
        self.wakers = self.wakers - 1;
        if self.wakers == 0 {
            self.fault(PanicError::Static(NO_WAKEUP))
        } else {
            None
        }
    }

    /// Reads the value of the session if it has one, else leaves who waits for it.
    pub fn join(&mut self, joiner: SessionJoiner<K, H>) -> (flow: JoinFlow<T, P>)
        requires
            old(self)@.settled(),
            old(self)@.status == 0 || old(self)@.status == release_bits(SessionStatus::Value),
        ensures
            final(self)@.settled(),
            final(self).waker_count() == old(self).waker_count(),
            old(self)@.status == 0 ==> {
                &&& flow is Wait
                &&& final(self)@ == (JointView::<T, P, K, H> {
                    status: release_bits(SessionStatus::Joining),
                    state: SessionState::Joiner(joiner),
                })
            },
            old(self)@.status != 0 ==> {
                &&& old(self)@.state == SessionState::<T, P, K, H>::Value(flow->value)
                &&& flow is Ready
                &&& final(self)@ == (JointView::<T, P, K, H> {
                    status: release_bits(SessionStatus::Joined),
                    state: SessionState::Zeroed,
                })
            },
    {
        let joining = self.join_step(Joining::Load { joiner });
        let joining = self.join_step(joining);
        match joining {
            Joining::Done { value } => JoinFlow::Ready { value },
            joining => {
                self.join_step(joining);
                JoinFlow::Wait
            },
        }
    }

    /// Reads the value of a session that has left who waits for it, if it has come by now.
    pub fn join_again(&mut self) -> (flow: JoinFlow<T, P>)
        requires
            old(self)@.settled(),
            old(self)@.status == release_bits(SessionStatus::Joining) || old(self)@.status
                == release_bits(SessionStatus::Value),
        ensures
            final(self)@.settled(),
            final(self).waker_count() == old(self).waker_count(),
            flow is Wait <==> old(self)@.status == release_bits(SessionStatus::Joining),
            flow is Wait ==> final(self)@ == old(self)@,
            flow is Ready ==> {
                &&& old(self)@.state == SessionState::<T, P, K, H>::Value(flow->value)
                &&& final(self)@ == (JointView::<T, P, K, H> {
                    status: release_bits(SessionStatus::Joined),
                    state: SessionState::Zeroed,
                })
            },
    {
        match self.join_step(Joining::Wait) {
            Joining::Take => match self.join_step(Joining::Take) {
                Joining::Done { value } => JoinFlow::Ready { value },
                _ => JoinFlow::Wait,
            },
            _ => JoinFlow::Wait,
        }
    }

    /// Drops the session: no waker will find it from now on, and a value that has come is lost. A
    /// session whose owner is gone while it waits stays as it is.
    pub fn drop_value(&mut self)
        requires
            old(self)@.settled(),
        ensures
            final(self)@.settled(),
            final(self).waker_count() == old(self).waker_count(),
            old(self)@.status == release_bits(SessionStatus::Joining) || old(self)@.status
                == release_bits(SessionStatus::Joined) ==> final(self)@ == old(self)@,
            old(self)@.status == 0 ==> final(self)@ == (JointView::<T, P, K, H> {
                status: release_bits(SessionStatus::Joined),
                state: old(self)@.state,
            }),
            old(self)@.status == release_bits(SessionStatus::Value) ==> final(self)@ == (JointView::<
                T,
                P,
                K,
                H,
            > { status: release_bits(SessionStatus::Joined), state: SessionState::Zeroed }),
    {
        let joining = self.join_step(Joining::Leave);
        self.join_step(joining);
    }
}

/// What waking a session calls for: whether the waker was the first, and who waits.
pub struct Wakeup<K, H> {
    pub waked: bool,
    pub joiner: Option<SessionJoiner<K, H>>,
}

/// Session provides method to block current coroutine until waking by [SessionWaker].
pub struct Session {}

/// SessionWaker provides method to wake associated [Session].
pub struct SessionWaker {}

/// Constructs cooperative facilities to wait and wake coroutine across task boundary.
pub fn session<T, P, K, H>() -> (facilities: (SessionJoint<T, P, K, H>, Session, SessionWaker))
    ensures
        facilities.0@ == (JointView::<T, P, K, H> { status: 0, state: SessionState::Zeroed }),
        facilities.0.waker_count() == 1,
{
    (SessionJoint::new(), Session {  }, SessionWaker {  })
}

impl Session {
    /// Waits peer to wake it: reads what the peer has sent, or leaves `joiner` for it to wake.
    pub fn wait<T, P, K, H>(
        self,
        joint: &mut SessionJoint<T, P, K, H>,
        joiner: SessionJoiner<K, H>,
    ) -> (flow: JoinFlow<T, P>)
        requires
            old(joint)@.settled(),
            old(joint)@.status == 0 || old(joint)@.status == release_bits(SessionStatus::Value),
        ensures
            final(joint)@.settled(),
            final(joint).waker_count() == old(joint).waker_count(),
            old(joint)@.status == 0 ==> {
                &&& flow is Wait
                &&& final(joint)@ == (JointView::<T, P, K, H> {
                    status: release_bits(SessionStatus::Joining),
                    state: SessionState::Joiner(joiner),
                })
            },
            old(joint)@.status != 0 ==> {
                &&& old(joint)@.state == SessionState::<T, P, K, H>::Value(flow->value)
                &&& flow is Ready
                &&& final(joint)@ == (JointView::<T, P, K, H> {
                    status: release_bits(SessionStatus::Joined),
                    state: SessionState::Zeroed,
                })
            },
    {
        joint.join(joiner)
    }

    /// Checks whether [Session::wait] will not block.
    pub fn is_ready<T, P, K, H>(&self, joint: &SessionJoint<T, P, K, H>) -> (ready: bool)
        requires
            joint@.settled(),
        ensures
            ready <==> joint@.status == release_bits(SessionStatus::Value) || joint@.status
                == release_bits(SessionStatus::Joined),
    {
        joint.is_ready()
    }
}

impl SessionWaker {
    /// Wakes peer.
    pub fn wake<T, P, K, H>(
        self,
        joint: &mut SessionJoint<T, P, K, H>,
        value: T,
    ) -> (wakeup: Wakeup<K, H>)
        requires
            old(joint)@.settled(),
        ensures
            final(joint)@.settled(),
            final(joint).waker_count() == old(joint).waker_count(),
            final(joint)@ == old(joint)@.after_set(SessionValue::Value(value)),
            wakeup == match old(joint)@.set_result(SessionValue::Value(value)) {
                Ok(joiner) => Wakeup { waked: true, joiner },
                Err(_) => Wakeup { waked: false, joiner: None },
            },
    {
        match joint.wake(value) {
            Ok(joiner) => Wakeup { waked: true, joiner },
            Err(_) => Wakeup { waked: false, joiner: None },
        }
    }

    /// Sends and wakes peer if not waked.
    pub fn send<T, P, K, H>(
        self,
        joint: &mut SessionJoint<T, P, K, H>,
        value: T,
    ) -> (result: Result<Option<SessionJoiner<K, H>>, T>)
        requires
            old(joint)@.settled(),
        ensures
            final(joint)@.settled(),
            final(joint).waker_count() == old(joint).waker_count(),
            final(joint)@ == old(joint)@.after_set(SessionValue::Value(value)),
            result == match old(joint)@.set_result(SessionValue::Value(value)) {
                Ok(joiner) => Ok::<_, T>(joiner),
                Err(_) => Err(value),
            },
    {
        joint.wake(value)
    }

    /// Ends the session with what its task produced: a value, or a panic. Returns who waits for
    /// it.
    pub fn set_result<T, P, K, H>(
        self,
        joint: &mut SessionJoint<T, P, K, H>,
        result: Result<T, PanicError<P>>,
    ) -> (joiner: Option<SessionJoiner<K, H>>)
        requires
            old(joint)@.settled(),
        ensures
            final(joint)@.settled(),
            final(joint).waker_count() == old(joint).waker_count(),
            ({
                let value = match result {
                    Ok(value) => SessionValue::<T, P>::Value(value),
                    Err(err) => SessionValue::Panic(err),
                };
                &&& final(joint)@ == old(joint)@.after_set(value)
                &&& joiner == match old(joint)@.set_result(value) {
                    Ok(joiner) => joiner,
                    Err(_) => None,
                }
            }),
    {
        match result {
            Ok(value) => match joint.wake(value) {
                Ok(joiner) => joiner,
                Err(_) => None,
            },
            Err(err) => joint.fault(err),
        }
    }

    /// Constructs another waker of the same session.
    pub fn another<T, P, K, H>(&self, joint: &mut SessionJoint<T, P, K, H>) -> (waker: SessionWaker)
        requires
            old(joint).waker_count() < usize::MAX,
        ensures
            final(joint)@ == old(joint)@,
            final(joint).waker_count() == old(joint).waker_count() + 1,
    {
        joint.add_waker();
        SessionWaker {  }
    }

    /// Drops this waker. The last one to be dropped ends the session. Returns who waits for it.
    pub fn close<T, P, K, H>(self, joint: &mut SessionJoint<T, P, K, H>) -> (joiner: Option<
        SessionJoiner<K, H>,
    >)
        requires
            old(joint)@.settled(),
            old(joint).waker_count() > 0,
        ensures
            final(joint)@.settled(),
            final(joint).waker_count() == old(joint).waker_count() - 1,
            old(joint).waker_count() > 1 ==> joiner is None && final(joint)@ == old(joint)@,
            old(joint).waker_count() == 1 ==> {
                let panic = SessionValue::Panic(PanicError::Static(NO_WAKEUP));
                &&& final(joint)@ == old(joint)@.after_set(panic)
                &&& joiner == match old(joint)@.set_result(panic) {
                    Ok(joiner) => joiner,
                    Err(_) => None,
                }
            },
    {
        joint.remove_waker()
    }
}

/// A status is read back from its encoding, released or not, and released it is the odd one.
pub proof fn law_status_round_trip(
    status: SessionStatus,
    bits: usize,
    released: usize,
    again: (SessionStatus, SessionStatus),
)
    requires
        call_ensures(SessionStatus::into_bits, (status,), bits),
        call_ensures(SessionStatus::into_release, (status,), released),
        call_ensures(SessionStatus::from_bits, (bits,), again.0),
        call_ensures(SessionStatus::from_bits, (released,), again.1),
    ensures
        again == (status, status),
        bits % 2 == 0,
        released == bits + 1,
        status is Empty <==> bits == 0,
        status is Value <==> bits == 2,
        status is Joining <==> bits == 4,
        status is Joined <==> bits == 6,
{
}

/// What a waker leaves is a value or a panic, and is read as that.
pub proof fn law_session_value<T, P>(
    left: SessionValue<T, P>,
    result: Result<T, PanicError<P>>,
    value: T,
    err: PanicError<P>,
)
    requires
        call_ensures(SessionValue::<T, P>::into_result, (left,), result),
        left is Value ==> call_ensures(SessionValue::<T, P>::into_value, (left,), value),
        left is Panic ==> call_ensures(SessionValue::<T, P>::into_panic, (left,), err),
    ensures
        left is Value ==> left->Value_0 == value && result == Ok::<T, PanicError<P>>(value),
        left is Panic ==> left->Panic_0 == err && result == Err::<T, PanicError<P>>(err),
{
}

/// A session is ready if and only if a value has come or it is over, which its status tells.
pub proof fn law_session_ready<T, P, K, H>(
    session: &Session,
    joint: &SessionJoint<T, P, K, H>,
    status: SessionStatus,
    ready: (bool, bool),
)
    requires
        joint@.settled(),
        call_ensures(SessionJoint::<T, P, K, H>::status, (joint,), status),
        call_ensures(SessionJoint::<T, P, K, H>::is_ready, (joint,), ready.0),
        call_ensures(Session::is_ready::<T, P, K, H>, (session, joint), ready.1),
    ensures
        ready.0 == ready.1,
        ready.0 <==> status is Value || status is Joined,
        joint@.status == 0 ==> status is Empty,
        joint@.status == 3 ==> status is Value,
        joint@.status == 5 ==> status is Joining,
        joint@.status == 7 ==> status is Joined,
{
}

/// Only the first value reaches the session, and whoever waits by then is to be woken. A value that
/// comes later, or to a session that is over, comes back with nothing changed.
pub proof fn law_wake<T, P, K, H>(
    waker: SessionWaker,
    waking: &mut SessionJoint<T, P, K, H>,
    sending: &mut SessionJoint<T, P, K, H>,
    setting: &mut SessionJoint<T, P, K, H>,
    value: T,
    wakeup: Wakeup<K, H>,
    sent: Result<Option<SessionJoiner<K, H>>, T>,
    joiner: Option<SessionJoiner<K, H>>,
)
    requires
        call_ensures(SessionWaker::wake::<T, P, K, H>, (waker, waking, value), wakeup),
        *old(sending) == *old(waking),
        call_ensures(SessionWaker::send::<T, P, K, H>, (waker, sending, value), sent),
        *old(setting) == *old(waking),
        call_ensures(SessionWaker::set_result::<T, P, K, H>, (waker, setting, Ok(value)), joiner),
    ensures
        final(sending)@ == final(waking)@,
        final(setting)@ == final(waking)@,
        final(waking).waker_count() == old(waking).waker_count(),
        wakeup.waked <==> old(waking)@.status == 0 || old(waking)@.status == 5,
        wakeup.waked ==> {
            &&& final(waking)@.status == 3
            &&& final(waking)@.state == SessionState::<T, P, K, H>::Value(
                SessionValue::Value(value),
            )
            &&& sent == Ok::<_, T>(wakeup.joiner)
        },
        !wakeup.waked ==> {
            &&& final(waking)@ == old(waking)@
            &&& wakeup.joiner is None
            &&& sent == Err::<Option<SessionJoiner<K, H>>, T>(value)
        },
        joiner == wakeup.joiner,
        old(waking)@.status == 0 ==> wakeup.joiner is None,
        old(waking)@.status == 5 ==> wakeup.joiner == Some(old(waking)@.state->Joiner_0),
{
}

/// A panic reaches the session as a value does, whether its task panicked, it is cancelled or it is
/// interrupted.
pub proof fn law_panic_reaches_once<T, P, K, H>(
    waker: SessionWaker,
    err: PanicError<P>,
    reason: &'static str,
    setting: &mut SessionJoint<T, P, K, H>,
    cancelling: &mut SessionJoint<T, P, K, H>,
    faulting: &mut SessionJoint<T, P, K, H>,
    interrupting: &mut SessionJoint<T, P, K, H>,
    joiner: (Option<SessionJoiner<K, H>>, Option<SessionJoiner<K, H>>),
    cancelled: Result<Option<SessionJoiner<K, H>>, PanicError<P>>,
    interrupted: bool,
)
    requires
        call_ensures(SessionWaker::set_result::<T, P, K, H>, (waker, setting, Err(err)), joiner.0),
        *old(cancelling) == *old(setting),
        call_ensures(SessionJoint::<T, P, K, H>::cancel, (cancelling, err), cancelled),
        *old(faulting) == *old(setting),
        call_ensures(SessionJoint::<T, P, K, H>::fault, (faulting, err), joiner.1),
        *old(interrupting) == *old(setting),
        call_ensures(SessionJoint::<T, P, K, H>::interrupt, (interrupting, reason), interrupted),
    ensures
        final(cancelling)@ == final(setting)@,
        final(faulting)@ == final(setting)@,
        final(setting).waker_count() == old(setting).waker_count(),
        interrupted <==> old(setting)@.status == 0 || old(setting)@.status == 5,
        cancelled is Ok <==> interrupted,
        interrupted ==> {
            &&& final(setting)@.status == 3
            &&& final(setting)@.state == SessionState::<T, P, K, H>::Value(
                SessionValue::Panic(err),
            )
            &&& final(interrupting)@.status == 3
            &&& final(interrupting)@.state == SessionState::<T, P, K, H>::Value(
                SessionValue::Panic(PanicError::Static(reason)),
            )
            &&& cancelled->Ok_0 == joiner.0
        },
        !interrupted ==> {
            &&& final(setting)@ == old(setting)@
            &&& final(interrupting)@ == old(setting)@
            &&& cancelled->Err_0 == err
            &&& joiner.0 is None
        },
        joiner.1 == joiner.0,
        old(setting)@.status == 0 ==> joiner.0 is None,
        old(setting)@.status == 5 ==> joiner.0 == Some(old(setting)@.state->Joiner_0),
{
}

/// Of two values that are sent the session reads the first, and the second comes back, whether the
/// session came to wait before them or after.
pub proof fn law_session_reads_first<T, P, K, H>(
    new: (SessionJoint<T, P, K, H>, Session, SessionWaker),
    joiner: SessionJoiner<K, H>,
    value: T,
    other: T,
    first: &mut SessionJoint<T, P, K, H>,
    second: &mut SessionJoint<T, P, K, H>,
    reading: &mut SessionJoint<T, P, K, H>,
    sent: (Result<Option<SessionJoiner<K, H>>, T>, Result<Option<SessionJoiner<K, H>>, T>),
    read: JoinFlow<T, P>,
    waiting: &mut SessionJoint<T, P, K, H>,
    still: &mut SessionJoint<T, P, K, H>,
    sending: &mut SessionJoint<T, P, K, H>,
    woken: &mut SessionJoint<T, P, K, H>,
    flows: (JoinFlow<T, P>, JoinFlow<T, P>, JoinFlow<T, P>),
    found: Result<Option<SessionJoiner<K, H>>, T>,
)
    requires
        call_ensures(session::<T, P, K, H>, (), new),
        *old(first) == new.0,
        call_ensures(SessionWaker::send::<T, P, K, H>, (new.2, first, value), sent.0),
        *old(second) == *final(first),
        call_ensures(SessionWaker::send::<T, P, K, H>, (new.2, second, other), sent.1),
        *old(reading) == *final(second),
        call_ensures(Session::wait::<T, P, K, H>, (new.1, reading, joiner), read),
        *old(waiting) == new.0,
        call_ensures(Session::wait::<T, P, K, H>, (new.1, waiting, joiner), flows.0),
        *old(still) == *final(waiting),
        call_ensures(SessionJoint::<T, P, K, H>::join_again, (still,), flows.1),
        *old(sending) == *final(still),
        call_ensures(SessionWaker::send::<T, P, K, H>, (new.2, sending, value), found),
        *old(woken) == *final(sending),
        call_ensures(SessionJoint::<T, P, K, H>::join_again, (woken,), flows.2),
    ensures
        new.0.waker_count() == 1,
        sent.0 == Ok::<Option<SessionJoiner<K, H>>, T>(None),
        sent.1 == Err::<Option<SessionJoiner<K, H>>, T>(other),
        read == (JoinFlow::<T, P>::Ready { value: SessionValue::Value(value) }),
        final(reading)@.status == 7,
        flows.0 is Wait,
        flows.1 is Wait,
        found == Ok::<_, T>(Some(joiner)),
        flows.2 == (JoinFlow::<T, P>::Ready { value: SessionValue::Value(value) }),
        final(woken)@.status == 7,
{
}

/// A session that is dropped is over, unless it waits, and no waker finds it. What has come is lost.
pub proof fn law_dropped_session<T, P, K, H>(
    dropping: &mut SessionJoint<T, P, K, H>,
    sending: &mut SessionJoint<T, P, K, H>,
    waker: SessionWaker,
    value: T,
    sent: Result<Option<SessionJoiner<K, H>>, T>,
)
    requires
        old(dropping)@.settled(),
        call_ensures(SessionJoint::<T, P, K, H>::drop_value, (dropping,), ()),
        *old(sending) == *final(dropping),
        call_ensures(SessionWaker::send::<T, P, K, H>, (waker, sending, value), sent),
    ensures
        old(dropping)@.status != 5 ==> final(dropping)@.status == 7 && sent == Err::<
            Option<SessionJoiner<K, H>>,
            T,
        >(value),
        old(dropping)@.status == 5 ==> final(dropping)@ == old(dropping)@,
        old(dropping)@.status == 3 ==> final(dropping)@.state is Zeroed,
        final(dropping).waker_count() == old(dropping).waker_count(),
{
}

/// The last waker to go unused ends a session that nothing has reached with a panic, and finds who
/// waits. Another one is one more to go.
pub proof fn law_last_waker<T, P, K, H>(
    waker: SessionWaker,
    another: SessionWaker,
    closing: &mut SessionJoint<T, P, K, H>,
    adding: &mut SessionJoint<T, P, K, H>,
    joiner: Option<SessionJoiner<K, H>>,
)
    requires
        old(closing)@.settled(),
        old(closing).waker_count() > 0,
        call_ensures(SessionWaker::close::<T, P, K, H>, (waker, closing), joiner),
        call_ensures(SessionWaker::another::<T, P, K, H>, (&waker, adding), another),
    ensures
        final(closing).waker_count() + 1 == old(closing).waker_count(),
        final(closing).waker_count() > 0 || old(closing)@.status == 3 || old(closing)@.status == 7
            ==> final(closing)@ == old(closing)@ && joiner is None,
        final(closing).waker_count() == 0 && (old(closing)@.status == 0 || old(closing)@.status == 5)
            ==> {
            &&& final(closing)@.status == 3
            &&& final(closing)@.state == SessionState::<T, P, K, H>::Value(
                SessionValue::Panic(PanicError::Static(NO_WAKEUP)),
            )
        },
        final(closing).waker_count() == 0 && old(closing)@.status == 0 ==> joiner is None,
        final(closing).waker_count() == 0 && old(closing)@.status == 5 ==> joiner == Some(
            old(closing)@.state->Joiner_0,
        ),
        final(adding).waker_count() == old(adding).waker_count() + 1,
        final(adding)@ == old(adding)@,
{
}

/// A waker takes the cell only from a word that is empty or released by a session that waits, holds
/// it with the release bit off, and sets the bit when the value is in. It goes on trying while a
/// session is about to wait, and has its value back once a value is there or the session is over.
pub proof fn law_waker_steps<T, P, K, H>(
    joint: &mut SessionJoint<T, P, K, H>,
    setting: Setting<T, P, K, H>,
    next: Setting<T, P, K, H>,
)
    requires
        old(joint)@.status < 8,
        call_ensures(SessionJoint::<T, P, K, H>::set_step, (joint, setting), next),
    ensures
        final(joint).waker_count() == old(joint).waker_count(),
        setting matches Setting::Load { value } ==> {
            &&& final(joint)@ == old(joint)@
            &&& old(joint)@.status <= 1 ==> next == (Setting::<T, P, K, H>::ClaimEmpty { value })
            &&& 4 <= old(joint)@.status <= 5 ==> next == (Setting::<T, P, K, H>::ClaimJoining {
                value,
            })
            &&& 2 <= old(joint)@.status <= 3 || 6 <= old(joint)@.status ==> next == (Setting::<
                T,
                P,
                K,
                H,
            >::Done { result: Err(value) })
        },
        setting matches Setting::ClaimEmpty { value } ==> {
            &&& old(joint)@.status == 0 ==> next == (Setting::<T, P, K, H>::Fill { value })
                && final(joint)@.status == 2 && final(joint)@.state == old(joint)@.state
            &&& old(joint)@.status != 0 ==> final(joint)@ == old(joint)@
            &&& 4 <= old(joint)@.status <= 5 ==> next == (Setting::<T, P, K, H>::ClaimJoining {
                value,
            })
            &&& 2 <= old(joint)@.status <= 3 || 6 <= old(joint)@.status ==> next == (Setting::<
                T,
                P,
                K,
                H,
            >::Done { result: Err(value) })
        },
        setting matches Setting::ClaimJoining { value } ==> {
            &&& old(joint)@.status == 5 ==> next == (Setting::<T, P, K, H>::Swap { value })
                && final(joint)@.status == 2 && final(joint)@.state == old(joint)@.state
            &&& old(joint)@.status != 5 ==> final(joint)@ == old(joint)@
            &&& old(joint)@.status == 4 ==> next == setting
            &&& old(joint)@.status <= 3 || 6 <= old(joint)@.status ==> next == (Setting::<
                T,
                P,
                K,
                H,
            >::Done { result: Err(value) })
        },
        setting matches Setting::Fill { value } ==> {
            &&& next == (Setting::<T, P, K, H>::Done { result: Ok(None) })
            &&& final(joint)@.status == 3
            &&& final(joint)@.state == SessionState::<T, P, K, H>::Value(value)
        },
        setting matches Setting::Swap { value } ==> (old(joint)@.state matches SessionState::Joiner(
            joiner,
        ) ==> {
            &&& next == (Setting::<T, P, K, H>::Release { joiner })
            &&& final(joint)@.status == old(joint)@.status
            &&& final(joint)@.state == SessionState::<T, P, K, H>::Value(value)
        }),
        setting matches Setting::Release { joiner } ==> {
            &&& next == (Setting::<T, P, K, H>::Done { result: Ok(Some(joiner)) })
            &&& final(joint)@.status == 3
            &&& final(joint)@.state == old(joint)@.state
        },
        setting is Done ==> next == setting && final(joint)@ == old(joint)@,
{
}

/// A session leaves who waits only in a cell that it took from an empty word, and sets the release
/// bit when that is in. It takes a value only from a released word, waits for one until then, and is
/// over from then on.
pub proof fn law_session_steps<T, P, K, H>(
    joint: &mut SessionJoint<T, P, K, H>,
    joining: Joining<T, P, K, H>,
    next: Joining<T, P, K, H>,
)
    requires
        old(joint)@.status < 8,
        call_ensures(SessionJoint::<T, P, K, H>::join_step, (joint, joining), next),
    ensures
        final(joint).waker_count() == old(joint).waker_count(),
        joining matches Joining::Load { joiner } ==> {
            &&& final(joint)@ == old(joint)@
            &&& old(joint)@.status <= 1 ==> next == (Joining::<T, P, K, H>::ClaimEmpty { joiner })
            &&& 2 <= old(joint)@.status <= 3 ==> next is Take
        },
        joining matches Joining::ClaimEmpty { joiner } ==> {
            &&& old(joint)@.status == 0 ==> next == (Joining::<T, P, K, H>::Fill { joiner })
                && final(joint)@.status == 4 && final(joint)@.state == old(joint)@.state
            &&& old(joint)@.status != 0 ==> final(joint)@ == old(joint)@
            &&& 2 <= old(joint)@.status <= 3 ==> next is Take
        },
        joining matches Joining::Fill { joiner } ==> {
            &&& next is Wait
            &&& final(joint)@.status == 5
            &&& final(joint)@.state == SessionState::<T, P, K, H>::Joiner(joiner)
        },
        joining is Wait ==> {
            &&& final(joint)@ == old(joint)@
            &&& 4 <= old(joint)@.status <= 5 ==> next is Wait
            &&& 2 <= old(joint)@.status <= 3 ==> next is Take
        },
        joining is Take ==> {
            &&& old(joint)@.status == 3 ==> (old(joint)@.state matches SessionState::Value(value)
                ==> {
                &&& next == (Joining::<T, P, K, H>::Done { value })
                &&& final(joint)@.status == 7
                &&& final(joint)@.state is Zeroed
            })
            &&& old(joint)@.status == 2 ==> next is Take
            &&& old(joint)@.status != 3 ==> final(joint)@ == old(joint)@
        },
        joining is Leave ==> {
            &&& final(joint)@ == old(joint)@
            &&& old(joint)@.status <= 1 ==> next is LeaveEmpty
            &&& 2 <= old(joint)@.status <= 3 ==> next is LeaveValue
            &&& 4 <= old(joint)@.status ==> next is Left
        },
        joining is LeaveEmpty ==> {
            &&& old(joint)@.status == 0 ==> next is Left && final(joint)@.status == 7
            &&& old(joint)@.status != 0 ==> final(joint)@ == old(joint)@
            &&& 2 <= old(joint)@.status <= 3 ==> next is LeaveValue
            &&& 4 <= old(joint)@.status ==> next is Left
        },
        joining is LeaveValue ==> {
            &&& old(joint)@.status == 3 ==> next is Left && final(joint)@.status == 7
                && final(joint)@.state is Zeroed
            &&& old(joint)@.status == 2 ==> next is LeaveValue
            &&& old(joint)@.status != 3 ==> final(joint)@ == old(joint)@
        },
        joining is Done || joining is Left || joining is Broken ==> next == joining
            && final(joint)@ == old(joint)@,
{
}

} // verus!
