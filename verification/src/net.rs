//! Networking primitives for TCP/UDP communication.
//!
//! Channels that signal readiness go by identities here.

use vstd::prelude::*;

verus! {

/// Token of the waker that stops polling.
pub const WAKER_TOKEN: usize = usize::MAX;

/// Whom to signal when a registered source is ready.
#[derive(Debug, Clone, Copy, PartialEq, Eq, Structural)]
pub enum Entry {
    Reader { readable: u64 },
    Stream { readable: u64, writable: u64 },
}

#[verifier::external_type_specification]
#[verifier::external_body]
#[verifier::reject_recursive_types(T)]
pub struct ExSlab<T>(slab::Slab<T>);

/// What a `slab::Slab` holds by its keys.
pub uninterp spec fn slots(slab: slab::Slab<Entry>) -> Map<usize, Entry>;

/// A slab without entries.
pub open spec fn no_slots() -> Map<usize, Entry> {
    Map::empty()
}

/// `slab::Slab::new`: the slab holds nothing.
#[verifier::external_body]
fn slab_new() -> (slab: slab::Slab<Entry>)
    ensures
        slots(slab) == no_slots(),
{
    slab::Slab::new()
}

/// `slab::Slab::insert`: the value is held by a key that was not in use. Keys are positions in a
/// `Vec`, so that the greatest `usize` is none.
#[verifier::external_body]
fn slab_insert(slab: &mut slab::Slab<Entry>, entry: Entry) -> (key: usize)
    ensures
        !slots(*old(slab)).dom().contains(key),
        key < usize::MAX,
        slots(*final(slab)) == slots(*old(slab)).insert(key, entry),
{
    slab.insert(entry)
}

/// `slab::Slab::remove`: the value is returned, and its key is in use no longer. There is a panic
/// if the key is not in use.
#[verifier::external_body]
fn slab_remove(slab: &mut slab::Slab<Entry>, key: usize) -> (entry: Entry)
    requires
        slots(*old(slab)).dom().contains(key),
    ensures
        entry == slots(*old(slab))[key],
        slots(*final(slab)) == slots(*old(slab)).remove(key),
{
    slab.remove(key)
}

/// `slab::Slab::get`: the value that the key holds, if it is in use.
#[verifier::external_body]
fn slab_get(slab: &slab::Slab<Entry>, key: usize) -> (entry: Option<Entry>)
    ensures
        entry == if slots(*slab).dom().contains(key) {
            Some(slots(*slab)[key])
        } else {
            None
        },
{
    slab.get(key).copied()
}

/// Readiness of a source.
#[derive(Debug, Clone, Copy, PartialEq, Eq, Structural)]
pub struct Event {
    pub token: usize,
    pub readable: bool,
    pub writable: bool,
    pub error: bool,
    pub read_closed: bool,
    pub write_closed: bool,
}

impl Event {
    /// Whether a read would not block.
    pub open spec fn spec_readable(self) -> bool {
        self.readable || self.error || self.read_closed
    }

    /// Whether a write would not block.
    pub open spec fn spec_writable(self) -> bool {
        self.writable || self.error || self.write_closed
    }

    fn check_readable(&self) -> (ready: bool)
        ensures
            ready == self.spec_readable(),
    {
        self.readable || self.error || self.read_closed
    }

    fn check_writable(&self) -> (ready: bool)
        ensures
            ready == self.spec_writable(),
    {
        self.writable || self.error || self.write_closed
    }
}

/// Whom an event of a source with that entry signals.
pub open spec fn entry_signals(entry: Entry, event: Event) -> Seq<u64> {
    match entry {
        Entry::Reader { readable } => if event.spec_readable() {
            seq![readable]
        } else {
            Seq::empty()
        },
        Entry::Stream { readable, writable } => {
            (if event.spec_readable() {
                seq![readable]
            } else {
                Seq::empty()
            }) + (if event.spec_writable() {
                seq![writable]
            } else {
                Seq::empty()
            })
        },
    }
}

/// Whom an event signals: nobody if it is of the waker, or of a source that is not registered.
pub open spec fn event_signals(entries: Map<usize, Entry>, event: Event) -> Seq<u64> {
    if event.token != WAKER_TOKEN && entries.dom().contains(event.token) {
        entry_signals(entries[event.token], event)
    } else {
        Seq::empty()
    }
}

/// Whom events signal in turn.
pub open spec fn signals(entries: Map<usize, Entry>, events: Seq<Event>) -> Seq<u64>
    decreases events.len(),
{
    if events.len() == 0 {
        Seq::empty()
    } else {
        signals(entries, events.drop_last()) + event_signals(entries, events.last())
    }
}

/// Sources by their tokens, to be guarded by a lock.
pub struct Registry {
    entries: slab::Slab<Entry>,
}

impl View for Registry {
    type V = Map<usize, Entry>;

    closed spec fn view(&self) -> Map<usize, Entry> {
        slots(self.entries)
    }
}

impl Registry {
    /// No token is that of the waker.
    pub open spec fn wf(&self) -> bool {
        !self@.dom().contains(WAKER_TOKEN)
    }

    pub fn new() -> (registry: Self)
        ensures
            registry.wf(),
            registry@ == Map::<usize, Entry>::empty(),
    {
        Registry { entries: slab_new() }
    }

    /// Registers whom to signal for a source, and returns its token.
    pub fn register_entry(&mut self, entry: Entry) -> (token: usize)
        requires
            old(self).wf(),
        ensures
            final(self).wf(),
            !old(self)@.dom().contains(token),
            token != WAKER_TOKEN,
            final(self)@ == old(self)@.insert(token, entry),
    {
        slab_insert(&mut self.entries, entry)
    }

    /// Returns true if a source is registered with this token.
    pub fn is_registered(&self, token: usize) -> (registered: bool)
        ensures
            registered == self@.dom().contains(token),
    {
        slab_get(&self.entries, token).is_some()
    }

    /// Unregisters a source, whose token is free then.
    pub fn unregister_entry(&mut self, token: usize)
        requires
            old(self).wf(),
            old(self)@.dom().contains(token),
        ensures
            final(self).wf(),
            final(self)@ == old(self)@.remove(token),
    {
        slab_remove(&mut self.entries, token);
    }

    /// Finds out whom events signal, and whether one of them is of the waker that stops polling.
    pub fn wake_events(&self, events: &Vec<Event>) -> (woken: (bool, Vec<u64>))
        requires
            self.wf(),
        ensures
            woken.0 == exists|i: int|
                0 <= i < events@.len() && (#[trigger] events@[i]).token == WAKER_TOKEN,
            woken.1@ == signals(self@, events@),
    {
        let mut stopped = false;
        let mut signalled: Vec<u64> = Vec::new();
        let mut i: usize = 0;
        while i < events.len()
            invariant
                i <= events@.len(),
                self.wf(),
                stopped == exists|k: int|
                    0 <= k < i && (#[trigger] events@[k]).token == WAKER_TOKEN,
                signalled@ == signals(self@, events@.take(i as int)),
            decreases events@.len() - i,
        {
            let event = events[i];
            assert(events@.take(i + 1).drop_last() =~= events@.take(i as int));
            assert(events@.take(i + 1).last() == event);
            let ghost before = signalled@;
            if event.token == WAKER_TOKEN {
                assert(events@[i as int].token == WAKER_TOKEN);
                stopped = true;
            } else if let Some(entry) = slab_get(&self.entries, event.token) {
                match entry {
                    Entry::Reader { readable } => {
                        if event.check_readable() {
                            signalled.push(readable);
                        }
                    },
                    Entry::Stream { readable, writable } => {
                        if event.check_readable() {
                            signalled.push(readable);
                        }
                        if event.check_writable() {
                            signalled.push(writable);
                        }
                    },
                }
            }
            assert(signalled@ =~= before + event_signals(self@, event));
            i = i + 1;
        }
        assert(events@.take(i as int) =~= events@);
        (stopped, signalled)
    }
}

/// A source that has been unregistered signals nobody, and registering again gives tokens back.
pub proof fn law_unregistered_is_silent(entries: Map<usize, Entry>, event: Event, entry: Entry)
    ensures
        event_signals(entries.remove(event.token), event) == Seq::<u64>::empty(),
        !entries.dom().contains(event.token) ==> entries.insert(event.token, entry).remove(
            event.token,
        ) == entries,
{
    if !entries.dom().contains(event.token) {
        assert(entries.insert(event.token, entry).remove(event.token) =~= entries);
    }
}

/// What to do after an attempt that does not block.
#[derive(Debug, Clone, Copy, PartialEq, Eq, Structural)]
pub enum Attempted {
    /// Give this result back.
    Return,
    /// Wait for the source to be ready, and attempt again.
    Wait,
}

/// What to do after an attempt to accept, read or write: only an attempt that would block is
/// repeated.
pub fn attempted(ok: bool, would_block: bool) -> (next: Attempted)
    ensures
        next == if !ok && would_block {
            Attempted::Wait
        } else {
            Attempted::Return
        },
{
    if !ok && would_block {
        Attempted::Wait
    } else {
        Attempted::Return
    }
}

/// What to do after a poll.
#[derive(Debug, Clone, Copy, PartialEq, Eq, Structural)]
pub enum Polled {
    /// Wake what is ready and, unless that says to stop, poll again.
    Wake,
    Poll,
    /// Give the error back.
    Fail,
}

/// What to do after a poll: one that was interrupted is repeated.
pub fn polled(ok: bool, interrupted: bool) -> (next: Polled)
    ensures
        next == if ok {
            Polled::Wake
        } else if interrupted {
            Polled::Poll
        } else {
            Polled::Fail
        },
{
    if ok {
        Polled::Wake
    } else if interrupted {
        Polled::Poll
    } else {
        Polled::Fail
    }
}

/// Value of the `SO_LINGER` option.
#[derive(Debug, Clone, Copy, PartialEq, Eq, Structural)]
pub struct Linger {
    pub onoff: i32,
    pub linger: i32,
}

impl Linger {
    /// Value that lets a socket linger for whole seconds, or not at all.
    pub fn from_secs(secs: Option<u64>) -> (linger: Linger)
        ensures
            linger == match secs {
                Some(secs) => Linger { onoff: 1, linger: secs as i32 },
                None => Linger { onoff: 0, linger: 0 },
            },
    {
        match secs {
            Some(secs) => Linger { onoff: 1, linger: secs as i32 },
            None => Linger { onoff: 0, linger: 0 },
        }
    }

    /// Seconds that a socket lingers for, if it does.
    pub fn into_secs(self) -> (secs: Option<u64>)
        ensures
            secs == if self.onoff != 0 {
                Some(self.linger as u64)
            } else {
                None
            },
    {
        if self.onoff != 0 {
            Some(self.linger as u64)
        } else {
            None
        }
    }
}

/// Lingering is read back as it was set, for as many seconds as the option can hold.
pub proof fn law_linger_round_trip(secs: u64, linger: Linger)
    requires
        secs <= i32::MAX,
        linger == (Linger { onoff: 1, linger: secs as i32 }),
    ensures
        linger.onoff != 0,
        linger.linger as u64 == secs,
{
}

/// A source is registered under a token of its own, which is never that of the waker, until it is
/// unregistered. Others keep theirs.
pub proof fn law_registered_until_unregistered(
    new: Registry,
    registering: &mut Registry,
    unregistering: &mut Registry,
    entry: Entry,
    token: usize,
    other: usize,
    registered: (bool, bool, bool),
    others: (bool, bool, bool),
)
    requires
        call_ensures(Registry::new, (), new),
        call_ensures(Registry::is_registered, (&new, other), others.2),
        call_ensures(Registry::is_registered, (old(registering), token), registered.0),
        call_ensures(Registry::is_registered, (old(registering), other), others.0),
        call_ensures(Registry::register_entry, (registering, entry), token),
        call_ensures(Registry::is_registered, (final(registering), token), registered.1),
        *old(unregistering) == *final(registering),
        call_ensures(Registry::unregister_entry, (unregistering, token), ()),
        call_ensures(Registry::is_registered, (final(unregistering), token), registered.2),
        call_ensures(Registry::is_registered, (final(unregistering), other), others.1),
    ensures
        registered == (false, true, false),
        token != usize::MAX,
        final(registering)@[token] == entry,
        forall|kept: usize| #[trigger]
            old(registering)@.dom().contains(kept) ==> final(registering)@[kept] == old(registering)@[kept],
        final(unregistering)@ == old(registering)@,
        others.0 == others.1,
        !others.2,
{
    assert(final(unregistering)@ =~= old(registering)@);
}

/// An event of a registered source signals its reader if a read would not block, because there is
/// something to read, an error, or nothing more to come, and then its writer if a write would not
/// block. Others signal nobody, and only the waker's stops polling.
pub proof fn law_one_event(registry: &Registry, events: &Vec<Event>, woken: (bool, Vec<u64>))
    requires
        registry.wf(),
        events@.len() == 1,
        call_ensures(Registry::wake_events, (registry, events), woken),
    ensures
        woken.0 <==> events@[0].token == usize::MAX,
        !registry@.dom().contains(events@[0].token) ==> woken.1@.len() == 0,
        registry@.dom().contains(events@[0].token) ==> {
            let event = events@[0];
            let reads = event.readable || event.error || event.read_closed;
            let writes = event.writable || event.error || event.write_closed;
            match registry@[event.token] {
                Entry::Reader { readable } => if reads {
                    woken.1@ == seq![readable]
                } else {
                    woken.1@.len() == 0
                },
                Entry::Stream { readable, writable } => if reads && writes {
                    woken.1@ == seq![readable, writable]
                } else if reads {
                    woken.1@ == seq![readable]
                } else if writes {
                    woken.1@ == seq![writable]
                } else {
                    woken.1@.len() == 0
                },
            }
        },
{
    assert(events@.drop_last() =~= Seq::empty());
    assert(signals(registry@, events@.drop_last()) == Seq::<u64>::empty());
    assert(woken.1@ =~= event_signals(registry@, events@[0]));
    if woken.0 {
        let i = choose|i: int|
            0 <= i < events@.len() && (#[trigger] events@[i]).token == WAKER_TOKEN;
        assert(i == 0);
    }
}

proof fn lemma_signals_concat(entries: Map<usize, Entry>, first: Seq<Event>, second: Seq<Event>)
    ensures
        signals(entries, first + second) == signals(entries, first) + signals(entries, second),
    decreases second.len(),
{
    if second.len() == 0 {
        assert(first + second =~= first);
        assert(signals(entries, first) + signals(entries, second) =~= signals(entries, first));
    } else {
        lemma_signals_concat(entries, first, second.drop_last());
        assert((first + second).drop_last() =~= first + second.drop_last());
        assert((first + second).last() == second.last());
        assert(signals(entries, first + second) =~= signals(entries, first) + signals(
            entries,
            second,
        ));
    }
}

/// Events signal in turn: those of two polls do together what they do one after the other. No events
/// do nothing.
pub proof fn law_events_in_turn(
    registry: &Registry,
    first: &Vec<Event>,
    second: &Vec<Event>,
    both: &Vec<Event>,
    woken: ((bool, Vec<u64>), (bool, Vec<u64>), (bool, Vec<u64>)),
)
    requires
        both@ == first@ + second@,
        call_ensures(Registry::wake_events, (registry, first), woken.0),
        call_ensures(Registry::wake_events, (registry, second), woken.1),
        call_ensures(Registry::wake_events, (registry, both), woken.2),
    ensures
        woken.2.0 == (woken.0.0 || woken.1.0),
        woken.2.1@ == woken.0.1@ + woken.1.1@,
        first@.len() == 0 ==> !woken.0.0 && woken.0.1@.len() == 0,
{
    lemma_signals_concat(registry@, first@, second@);
    if woken.0.0 {
        let i = choose|i: int|
            0 <= i < first@.len() && (#[trigger] first@[i]).token == WAKER_TOKEN;
        assert(both@[i] == first@[i]);
    }
    if woken.1.0 {
        let i = choose|i: int|
            0 <= i < second@.len() && (#[trigger] second@[i]).token == WAKER_TOKEN;
        assert(both@[first@.len() + i] == second@[i]);
    }
    if woken.2.0 {
        let i = choose|i: int| 0 <= i < both@.len() && (#[trigger] both@[i]).token == WAKER_TOKEN;
        if i < first@.len() {
            assert(first@[i] == both@[i]);
        } else {
            assert(second@[i - first@.len()] == both@[i]);
        }
    }
}

/// Only an attempt that failed because it would block is made again. Success and every other error
/// are given back.
pub proof fn law_attempted(ok: bool, would_block: bool, next: Attempted)
    requires
        call_ensures(attempted, (ok, would_block), next),
    ensures
        ok ==> next is Return,
        !would_block ==> next is Return,
        !ok && would_block ==> next is Wait,
{
}

/// A poll that succeeded wakes what is ready. One that failed is made again only if it was
/// interrupted.
pub proof fn law_polled(ok: bool, interrupted: bool, next: Polled)
    requires
        call_ensures(polled, (ok, interrupted), next),
    ensures
        next is Wake <==> ok,
        next is Fail <==> !ok && !interrupted,
        next is Poll <==> !ok && interrupted,
{
}

/// Lingering is read back as it was set, for as many seconds as the option can hold. The option holds
/// the low bits of others. Not to linger is read back as that.
pub proof fn law_linger(
    secs: Option<u64>,
    linger: Linger,
    again: Option<u64>,
)
    requires
        call_ensures(Linger::from_secs, (secs,), linger),
        call_ensures(Linger::into_secs, (linger,), again),
    ensures
        secs is None ==> linger.onoff == 0 && linger.linger == 0,
        secs is Some ==> linger.onoff == 1 && (secs->0 - linger.linger) % 0x1_0000_0000 == 0,
        again is Some <==> secs is Some,
        secs is Some && secs->0 <= i32::MAX ==> again == secs,
{
    if let Some(secs) = secs {
        assert((secs - (secs as i32)) % 0x1_0000_0000 == 0) by (bit_vector);
    }
}

} // verus!
