//! Operations on the submission queue of the kernel.

use std::collections::HashMap;

use vstd::prelude::*;
use vstd::std_specs::hash::*;

use super::operation;
use super::operation::Operation;

verus! {

/// Current directory in place of a directory's descriptor.
pub const AT_FDCWD: i32 = -100;

pub const AT_SYMLINK_NOFOLLOW: i32 = 0x100;

pub const AT_STATX_SYNC_AS_STAT: i32 = 0x0;

pub const AT_EMPTY_PATH: i32 = 0x1000;

/// `AT_SYMLINK_NOFOLLOW`, `AT_STATX_SYNC_AS_STAT` and `AT_EMPTY_PATH`.
pub const STAT_FLAGS: i32 = 0x1100;

pub const STATX_ALL: u32 = 0xfff;

/// Error number of an operation that was cancelled.
pub const ECANCELED: i32 = 125;

/// What the kernel is asked to do.
#[derive(Debug, Clone, Copy, PartialEq, Eq, Structural)]
pub enum Code {
    OpenAt { dirfd: i32, path: usize, flags: i32, mode: u32 },
    Read { fd: i32, buf: usize, len: u32, offset: u64 },
    Write { fd: i32, buf: usize, len: u32, offset: u64 },
    Fsync { fd: i32, datasync: bool },
    Statx { fd: i32, path: usize, metadata: usize, flags: i32, mask: u32 },
    AsyncCancel { user_data: u64 },
}

/// Entry of the submission queue.
#[derive(Debug, Clone, Copy, PartialEq, Eq, Structural)]
pub struct Entry {
    pub code: Code,
    pub user_data: u64,
}

/// Operation and whom to tell its outcome.
pub struct Request<S> {
    pub result: S,
    /// Identifies this request among those that have not completed.
    pub user_data: usize,
    pub operation: Operation,
}

/// An offset as the kernel takes it, where minus one is all bits set.
pub open spec fn spec_offset(offset: isize) -> int {
    if offset < 0 {
        offset + 0x1_0000_0000_0000_0000
    } else {
        offset as int
    }
}

/// What the kernel is asked to do for an operation. It takes the low bits of a length.
pub open spec fn spec_code(operation: Operation) -> Code {
    match operation {
        Operation::Open { path, flags, mode } => Code::OpenAt {
            dirfd: AT_FDCWD,
            path,
            flags,
            mode,
        },
        Operation::Read { fd, buf, len, offset } => Code::Read {
            fd,
            buf,
            len: len as u32,
            offset: spec_offset(offset) as u64,
        },
        Operation::Write { fd, buf, len, offset } => Code::Write {
            fd,
            buf,
            len: len as u32,
            offset: spec_offset(offset) as u64,
        },
        Operation::Fsync { fd, only_data } => Code::Fsync { fd, datasync: only_data },
        Operation::Stat { fd, path, metadata } => Code::Statx {
            fd,
            path,
            metadata,
            flags: STAT_FLAGS,
            mask: STATX_ALL,
        },
        Operation::Cancel { user_data } => Code::AsyncCancel { user_data: user_data as u64 },
        Operation::Truncate { fd: _, size: _ } => arbitrary(),
    }
}

/// Whether the kernel's queue can serve an operation.
pub open spec fn served(operation: Operation) -> bool {
    match operation {
        Operation::Truncate { fd: _, size: _ } => false,
        _ => true,
    }
}

fn offset_bits(offset: isize) -> (bits: u64)
    ensures
        bits == spec_offset(offset),
{
    if offset < 0 {
        u64::MAX - (-(offset + 1)) as u64
    } else {
        offset as u64
    }
}

impl<S> Request<S> {
    pub open spec fn spec_entry(self) -> Entry {
        Entry { code: spec_code(self.operation), user_data: self.user_data as u64 }
    }

    /// Entry of the submission queue for this request.
    pub fn uring_entry(&self) -> (entry: Entry)
        requires
            served(self.operation),
        ensures
            entry == self.spec_entry(),
    {
        let code = match self.operation {
            Operation::Open { path, flags, mode } => Code::OpenAt {
                dirfd: AT_FDCWD,
                path,
                flags,
                mode,
            },
            Operation::Read { fd, buf, len, offset } => Code::Read {
                fd,
                buf,
                len: len as u32,
                offset: offset_bits(offset),
            },
            Operation::Write { fd, buf, len, offset } => Code::Write {
                fd,
                buf,
                len: len as u32,
                offset: offset_bits(offset),
            },
            Operation::Fsync { fd, only_data } => Code::Fsync { fd, datasync: only_data },
            Operation::Stat { fd, path, metadata } => Code::Statx {
                fd,
                path,
                metadata,
                flags: STAT_FLAGS,
                mask: STATX_ALL,
            },
            Operation::Truncate { fd: _, size: _ } => vstd::pervasive::unreached(),
            Operation::Cancel { user_data } => Code::AsyncCancel { user_data: user_data as u64 },
        };
        Entry { code, user_data: self.user_data as u64 }
    }
}

/// Values of [State].
#[verifier::ext_equal]
pub struct StateView<S> {
    /// Entries to submit.
    pub entries: Seq<Entry>,
    /// Requests that have not completed, by their identities.
    pub requests: Map<usize, Request<S>>,
}

impl<S> StateView<S> {
    /// Every entry to submit belongs to one request that has not completed.
    pub open spec fn inv(self) -> bool {
        &&& forall|i: int|
            0 <= i < self.entries.len() ==> {
                &&& (#[trigger] self.entries[i]).user_data <= usize::MAX
                &&& self.requests.dom().contains(self.entries[i].user_data as usize)
            }
        &&& forall|i: int, j: int|
            0 <= i < j < self.entries.len() ==> (#[trigger] self.entries[i]).user_data != (
            #[trigger] self.entries[j]).user_data
        &&& forall|user_data: usize| #[trigger]
            self.requests.dom().contains(user_data) ==> self.requests[user_data].user_data
                == user_data
    }

    /// Whether the request has not been submitted.
    pub open spec fn queued(self, user_data: usize) -> bool {
        exists|i: int|
            0 <= i < self.entries.len() && (#[trigger] self.entries[i]).user_data == user_data
    }

    pub open spec fn after_queue(self, request: Request<S>) -> Self {
        StateView {
            entries: self.entries.push(request.spec_entry()),
            requests: self.requests.insert(request.user_data, request),
        }
    }

    /// Whether the request has left without being submitted.
    pub open spec fn withdrawn(self, after: Self, user_data: usize) -> bool {
        &&& after.requests == self.requests.remove(user_data)
        &&& exists|i: int|
            {
                &&& 0 <= i < self.entries.len()
                &&& (#[trigger] self.entries[i]).user_data == user_data
                &&& after.entries == self.entries.update(i, self.entries.last()).drop_last()
            }
    }
}

/// What came of a request.
pub enum Pushed<S> {
    /// It is to be submitted.
    Queued,
    /// What it should cancel has already completed: it succeeds.
    Completed { canceller: S },
    /// What it should cancel has not been submitted: it succeeds, and the other fails with
    /// [ECANCELED].
    Cancelled { canceller: S, cancelled: S },
}

pub struct State<S> {
    entries: Vec<Entry>,
    requests: HashMap<usize, Request<S>>,
}

impl<S> View for State<S> {
    type V = StateView<S>;

    closed spec fn view(&self) -> StateView<S> {
        StateView { entries: self.entries@, requests: self.requests@ }
    }
}

impl<S> State<S> {
    pub fn new() -> (state: Self)
        ensures
            state@ == (StateView::<S> { entries: Seq::empty(), requests: Map::empty() }),
            state@.inv(),
    {
        broadcast use vstd::std_specs::hash::group_hash_axioms;

        State { entries: Vec::with_capacity(1024), requests: HashMap::with_capacity(4096) }
    }

    /// Returns true if all requests have completed.
    pub fn is_empty(&self) -> (empty: bool)
        ensures
            empty == (self@.requests == Map::<usize, Request<S>>::empty()),
    {
        broadcast use vstd::std_specs::hash::group_hash_axioms;

        let empty = self.requests.is_empty();
        assert(empty ==> self@.requests =~= Map::<usize, Request<S>>::empty());
        empty
    }

    fn position(&self, user_data: usize) -> (position: Option<usize>)
        ensures
            match position {
                Some(i) => i < self@.entries.len() && self@.entries[i as int].user_data
                    == user_data,
                None => !self@.queued(user_data),
            },
    {
        let mut i: usize = 0;
        while i < self.entries.len()
            invariant
                i <= self.entries@.len(),
                forall|k: int|
                    0 <= k < i ==> (#[trigger] self@.entries[k]).user_data != user_data,
            decreases self.entries@.len() - i,
        {
            if self.entries[i].user_data == user_data as u64 {
                return Some(i);
            }
            i = i + 1;
        }
        None
    }

    /// Returns true if a request can be pushed: the kernel's queue serves its operation, and no
    /// request of the same identity is under way.
    pub fn accepts(&self, request: &Request<S>) -> (accepts: bool)
        ensures
            accepts == (served(request.operation) && !self@.requests.dom().contains(
                request.user_data,
            )),
    {
        broadcast use vstd::std_specs::hash::group_hash_axioms;

        let served = match request.operation {
            Operation::Truncate { fd: _, size: _ } => false,
            _ => true,
        };
        served && !self.requests.contains_key(&request.user_data)
    }

    /// Queues a request to submit, unless it should cancel what has completed or not been
    /// submitted.
    pub fn push(&mut self, request: Request<S>) -> (pushed: Pushed<S>)
        requires
            old(self)@.inv(),
            served(request.operation),
            !old(self)@.requests.dom().contains(request.user_data),
        ensures
            final(self)@.inv(),
            ({
                let before = old(self)@;
                match request.operation {
                    Operation::Cancel { user_data } => if !before.requests.dom().contains(
                        user_data,
                    ) {
                        &&& pushed == (Pushed::Completed { canceller: request.result })
                        &&& final(self)@ == before
                    } else if before.queued(user_data) {
                        &&& pushed == (Pushed::Cancelled {
                            canceller: request.result,
                            cancelled: before.requests[user_data].result,
                        })
                        &&& before.withdrawn(final(self)@, user_data)
                    } else {
                        &&& pushed == Pushed::<S>::Queued
                        &&& final(self)@ == before.after_queue(request)
                    },
                    _ => {
                        &&& pushed == Pushed::<S>::Queued
                        &&& final(self)@ == before.after_queue(request)
                    },
                }
            }),
    {
        broadcast use vstd::std_specs::hash::group_hash_axioms;

        if let Operation::Cancel { user_data } = request.operation {
            if !self.requests.contains_key(&user_data) {
                return Pushed::Completed { canceller: request.result };
            }
            if let Some(i) = self.position(user_data) {
                let ghost before = self@;
                self.entries.swap_remove(i);
                let cancelled = self.requests.remove(&user_data).unwrap();
                proof {
                    let after = self@;
                    assert(before.entries[i as int].user_data == user_data);
                    assert(before.queued(user_data));
                    assert forall|k: int| 0 <= k < after.entries.len() implies {
                        &&& (#[trigger] after.entries[k]).user_data <= usize::MAX
                        &&& after.requests.dom().contains(after.entries[k].user_data as usize)
                    } by {
                        let last = before.entries.len() - 1;
                        if k == i {
                            assert(after.entries[k] == before.entries[last]);
                            assert(before.entries[last].user_data != before.entries[i as int].user_data);
                        } else {
                            assert(after.entries[k] == before.entries[k]);
                            if k < i {
                                assert(before.entries[k].user_data
                                    != before.entries[i as int].user_data);
                            } else {
                                assert(before.entries[i as int].user_data
                                    != before.entries[k].user_data);
                            }
                        }
                    }
                    assert(before.withdrawn(after, user_data));
                }
                return Pushed::Cancelled {
                    canceller: request.result,
                    cancelled: cancelled.result,
                };
            }
        }
        let entry = request.uring_entry();
        let ghost before = self@;
        self.requests.insert(request.user_data, request);
        self.entries.push(entry);
        assert(self@ =~= before.after_queue(request));
        Pushed::Queued
    }

    /// Returns true if more requests may join those to submit.
    pub fn wants_more(&self, max: usize) -> (more: bool)
        ensures
            more == (self@.entries.len() < max),
    {
        self.entries.len() < max
    }

    /// Takes the entries to submit.
    pub fn submit(&mut self) -> (entries: Vec<Entry>)
        requires
            old(self)@.inv(),
        ensures
            final(self)@.inv(),
            entries@ == old(self)@.entries,
            final(self)@ == (StateView { entries: Seq::empty(), ..old(self)@ }),
    {
        let mut entries: Vec<Entry> = Vec::new();
        core::mem::swap(&mut entries, &mut self.entries);
        entries
    }

    /// Returns true if the request was submitted and has not completed.
    pub fn is_submitted(&self, user_data: usize) -> (submitted: bool)
        ensures
            submitted == (self@.requests.dom().contains(user_data) && !self@.queued(user_data)),
    {
        broadcast use vstd::std_specs::hash::group_hash_axioms;

        self.requests.contains_key(&user_data) && self.position(user_data).is_none()
    }

    /// Completes a request that was submitted: returns whom to tell which outcome.
    pub fn consume(&mut self, user_data: usize, result: i32) -> (completed: (S, Result<i32, i32>))
        requires
            old(self)@.inv(),
            old(self)@.requests.dom().contains(user_data),
            !old(self)@.queued(user_data),
            result > i32::MIN,
        ensures
            final(self)@.inv(),
            final(self)@ == (StateView {
                requests: old(self)@.requests.remove(user_data),
                ..old(self)@
            }),
            completed.0 == old(self)@.requests[user_data].result,
            completed.1 == operation::spec_outcome(result as int, (-result) as i32),
    {
        broadcast use vstd::std_specs::hash::group_hash_axioms;

        let request = self.requests.remove(&user_data).unwrap();
        let outcome = if result < 0 {
            Err(-result)
        } else {
            Ok(result)
        };
        (request.result, outcome)
    }
}

/// A request that was cancelled before it was submitted is neither submitted nor waited for, and no
/// other is touched.
pub proof fn law_withdrawn_for_good<S>(
    before: StateView<S>,
    after: StateView<S>,
    user_data: usize,
    other: usize,
)
    requires
        before.inv(),
        before.withdrawn(after, user_data),
    ensures
        !after.queued(user_data),
        !after.requests.dom().contains(user_data),
        other != user_data ==> (after.requests.dom().contains(other)
            <==> before.requests.dom().contains(other)),
        other != user_data && before.requests.dom().contains(other) ==> after.requests[other]
            == before.requests[other],
{
    let i = choose|i: int|
        {
            &&& 0 <= i < before.entries.len()
            &&& (#[trigger] before.entries[i]).user_data == user_data
            &&& after.entries == before.entries.update(i, before.entries.last()).drop_last()
        };
    let last = before.entries.len() - 1;
    assert forall|k: int| 0 <= k < after.entries.len() implies (#[trigger]
    after.entries[k]).user_data != user_data by {
        if k == i {
            assert(after.entries[k] == before.entries[last]);
            assert(before.entries[i].user_data != before.entries[last].user_data);
        } else {
            assert(after.entries[k] == before.entries[k]);
            if k < i {
                assert(before.entries[k].user_data != before.entries[i].user_data);
            } else {
                assert(before.entries[i].user_data != before.entries[k].user_data);
            }
        }
    }
}

/// A read and a write at one offset are asked for at one offset: the one whose bits in two's
/// complement it has. For minus one all bits are set, which is how the kernel is told to go on where
/// the file is at.
pub proof fn law_offsets<S>(
    reading: &Request<S>,
    writing: &Request<S>,
    read: Entry,
    written: Entry,
    offset: isize,
)
    requires
        reading.operation is Read,
        reading.operation->Read_offset == offset,
        call_ensures(Request::<S>::uring_entry, (reading,), read),
        writing.operation is Write,
        writing.operation->Write_offset == offset,
        call_ensures(Request::<S>::uring_entry, (writing,), written),
    ensures
        read.code is Read,
        written.code is Write,
        read.code->Read_offset == written.code->Write_offset,
        (written.code->Write_offset - offset) % 0x1_0000_0000_0000_0000 == 0,
        offset == -1 <==> written.code->Write_offset == u64::MAX,
        offset >= 0 ==> written.code->Write_offset == offset,
{
}

/// An entry bears the identity of its request, and asks for what the operation is on what it is on:
/// no more of a buffer than its length, for as many bytes as fit the length of an entry.
pub proof fn law_entry<S>(request: &Request<S>, entry: Entry)
    requires
        call_ensures(Request::<S>::uring_entry, (request,), entry),
    ensures
        entry.user_data == request.user_data,
        request.operation matches Operation::Open { path, flags, mode } ==> {
            &&& entry.code is OpenAt
            &&& entry.code->OpenAt_dirfd == -100
            &&& entry.code->OpenAt_path == path
            &&& entry.code->OpenAt_flags == flags
            &&& entry.code->OpenAt_mode == mode
        },
        request.operation matches Operation::Read { fd, buf, len, offset: _ } ==> {
            &&& entry.code is Read
            &&& entry.code->Read_fd == fd
            &&& entry.code->Read_buf == buf
            &&& entry.code->Read_len <= len
            &&& (len - entry.code->Read_len) % 0x1_0000_0000 == 0
        },
        request.operation matches Operation::Write { fd, buf, len, offset: _ } ==> {
            &&& entry.code is Write
            &&& entry.code->Write_fd == fd
            &&& entry.code->Write_buf == buf
            &&& entry.code->Write_len <= len
            &&& (len - entry.code->Write_len) % 0x1_0000_0000 == 0
        },
        request.operation matches Operation::Fsync { fd, only_data } ==> {
            &&& entry.code is Fsync
            &&& entry.code->Fsync_fd == fd
            &&& entry.code->Fsync_datasync == only_data
        },
        request.operation matches Operation::Stat { fd, path, metadata } ==> {
            &&& entry.code is Statx
            &&& entry.code->Statx_fd == fd
            &&& entry.code->Statx_path == path
            &&& entry.code->Statx_metadata == metadata
            &&& entry.code->Statx_flags == 0x1100
            &&& entry.code->Statx_mask == 0xfff
        },
        request.operation matches Operation::Cancel { user_data } ==> {
            &&& entry.code is AsyncCancel
            &&& entry.code->AsyncCancel_user_data == user_data
        },
{
    match request.operation {
        Operation::Read { fd: _, buf: _, len, offset: _ } => lemma_low_bits(len),
        Operation::Write { fd: _, buf: _, len, offset: _ } => lemma_low_bits(len),
        _ => {},
    }
}

proof fn lemma_low_bits(len: usize)
    ensures
        (len as u32) <= len,
        (len - (len as u32)) % 0x1_0000_0000 == 0,
{
    let wide = len as u64;
    assert((wide as u32) as u64 == wide % 0x1_0000_0000u64) by (bit_vector);
    assert(wide as u32 == len as u32);
}

/// A request is queued behind the others under its identity, unless it should cancel what is not
/// under way or what has not been submitted. The others stay as they are.
pub proof fn law_push_queues<S>(
    state: &mut State<S>,
    request: Request<S>,
    entry: Entry,
    pushed: Pushed<S>,
)
    requires
        old(state)@.inv(),
        call_ensures(State::<S>::push, (state, request), pushed),
        call_ensures(Request::<S>::uring_entry, (&request,), entry),
        request.operation matches Operation::Cancel { user_data } ==> {
            &&& old(state)@.requests.dom().contains(user_data)
            &&& forall|i: int|
                0 <= i < old(state)@.entries.len() ==> (#[trigger] old(state)@.entries[i]).user_data != user_data
        },
    ensures
        pushed is Queued,
        final(state)@.entries == old(state)@.entries.push(entry),
        final(state)@.requests.dom() == old(state)@.requests.dom().insert(request.user_data),
        final(state)@.requests[request.user_data] == request,
        forall|other: usize|
            other != request.user_data && old(state)@.requests.dom().contains(other) ==> (
            #[trigger] final(state)@.requests[other]) == old(state)@.requests[other],
{
}

/// To cancel what is not under way is to succeed at once, with nothing changed.
pub proof fn law_cancel_of_completed<S>(
    state: &mut State<S>,
    request: Request<S>,
    pushed: Pushed<S>,
)
    requires
        call_ensures(State::<S>::push, (state, request), pushed),
        request.operation is Cancel,
        !old(state)@.requests.dom().contains(request.operation->Cancel_user_data),
    ensures
        pushed == (Pushed::Completed { canceller: request.result }),
        final(state)@.entries == old(state)@.entries,
        final(state)@.requests == old(state)@.requests,
{
}

/// To cancel what has not been submitted is to tell both at once. Neither is ever submitted, and no
/// other is touched.
pub proof fn law_cancel_of_queued<S>(
    state: &mut State<S>,
    request: Request<S>,
    pushed: Pushed<S>,
    i: int,
)
    requires
        old(state)@.inv(),
        call_ensures(State::<S>::push, (state, request), pushed),
        request.operation is Cancel,
        0 <= i < old(state)@.entries.len(),
        old(state)@.entries[i].user_data == request.operation->Cancel_user_data,
    ensures
        pushed == (Pushed::Cancelled {
            canceller: request.result,
            cancelled: old(state)@.requests[request.operation->Cancel_user_data].result,
        }),
        final(state)@.entries.len() == old(state)@.entries.len() - 1,
        forall|entry: Entry| #[trigger]
            final(state)@.entries.contains(entry) <==> old(state)@.entries.contains(entry)
                && entry.user_data != request.operation->Cancel_user_data,
        final(state)@.requests.dom() == old(state)@.requests.dom().remove(
            request.operation->Cancel_user_data,
        ),
        forall|other: usize| #[trigger]
            final(state)@.requests.dom().contains(other) ==> final(state)@.requests[other]
                == old(state)@.requests[other],
{
    let user_data = request.operation->Cancel_user_data;
    let before = old(state)@;
    let after = final(state)@;
    assert(before.requests.dom().contains(before.entries[i].user_data as usize));
    assert(before.queued(user_data));
    assert(before.withdrawn(after, user_data));
    let at = choose|at: int|
        {
            &&& 0 <= at < before.entries.len()
            &&& (#[trigger] before.entries[at]).user_data == user_data
            &&& after.entries == before.entries.update(at, before.entries.last()).drop_last()
        };
    let last = before.entries.len() - 1;
    assert forall|entry: Entry| #[trigger] after.entries.contains(entry) implies
        before.entries.contains(entry) && entry.user_data != user_data by {
        let k = choose|k: int| 0 <= k < after.entries.len() && after.entries[k] == entry;
        if k == at {
            assert(before.entries[last] == entry);
            assert(before.entries[at].user_data != before.entries[last].user_data);
        } else {
            assert(before.entries[k] == entry);
            if k < at {
                assert(before.entries[k].user_data != before.entries[at].user_data);
            } else {
                assert(before.entries[at].user_data != before.entries[k].user_data);
            }
        }
    }
    assert forall|entry: Entry|
        before.entries.contains(entry) && entry.user_data != user_data implies #[trigger]
    after.entries.contains(entry) by {
        let k = choose|k: int| 0 <= k < before.entries.len() && before.entries[k] == entry;
        if k == last {
            assert(after.entries[at] == entry);
        } else {
            assert(after.entries[k] == entry);
        }
    }
}

/// What is submitted is all that was queued, in that order, and nothing of it is submitted again.
pub proof fn law_submit<S>(
    state: &mut State<S>,
    again: &mut State<S>,
    entries: Vec<Entry>,
    more: Vec<Entry>,
)
    requires
        call_ensures(State::<S>::submit, (state,), entries),
        *old(again) == *final(state),
        call_ensures(State::<S>::submit, (again,), more),
    ensures
        entries@ == old(state)@.entries,
        final(state)@.requests == old(state)@.requests,
        more@.len() == 0,
        final(again)@.requests == old(state)@.requests,
{
}

/// Completing a request tells who asked for it, once: what the kernel returned, or the error number
/// if that is its negative. Nothing else changes.
pub proof fn law_consume<S>(
    state: &mut State<S>,
    user_data: usize,
    result: i32,
    completed: (S, Result<i32, i32>),
)
    requires
        call_ensures(State::<S>::consume, (state, user_data, result), completed),
        result > i32::MIN,
    ensures
        completed.0 == old(state)@.requests[user_data].result,
        result >= 0 ==> completed.1 == Ok::<i32, i32>(result),
        result < 0 ==> completed.1 is Err && completed.1->Err_0 + result == 0,
        !final(state)@.requests.dom().contains(user_data),
        final(state)@.entries == old(state)@.entries,
        forall|other: usize|
            other != user_data ==> (#[trigger] final(state)@.requests.dom().contains(other)
                <==> old(state)@.requests.dom().contains(other)),
        forall|other: usize| #[trigger]
            final(state)@.requests.dom().contains(other) ==> final(state)@.requests[other]
                == old(state)@.requests[other],
{
}

/// What was pushed and queued is under way until it completes: queued before it is submitted, and
/// submitted from then on. While it is, no other request of its identity is accepted.
pub proof fn law_request_is_under_way<S>(
    pushing: &mut State<S>,
    submitting: &mut State<S>,
    consuming: &mut State<S>,
    request: Request<S>,
    entries: Vec<Entry>,
    result: i32,
    completed: (S, Result<i32, i32>),
    submitted: (bool, bool, bool),
    accepted: (bool, bool),
    other: &Request<S>,
)
    requires
        old(pushing)@.inv(),
        !(request.operation is Cancel),
        !(other.operation is Truncate),
        other.user_data == request.user_data,
        call_ensures(State::<S>::push, (pushing, request), Pushed::<S>::Queued),
        *old(submitting) == *final(pushing),
        call_ensures(State::<S>::is_submitted, (old(submitting), request.user_data), submitted.0),
        call_ensures(State::<S>::submit, (submitting,), entries),
        *old(consuming) == *final(submitting),
        call_ensures(State::<S>::is_submitted, (old(consuming), request.user_data), submitted.1),
        call_ensures(State::<S>::accepts, (old(consuming), other), accepted.0),
        call_ensures(State::<S>::consume, (consuming, request.user_data, result), completed),
        result > i32::MIN,
        call_ensures(State::<S>::is_submitted, (final(consuming), request.user_data), submitted.2),
        call_ensures(State::<S>::accepts, (final(consuming), other), accepted.1),
    ensures
        submitted == (false, true, false),
        accepted == (false, true),
        entries@.last().user_data == request.user_data,
        completed.0 == request.result,
{
    let before = old(submitting)@;
    assert(before.entries.last().user_data == request.user_data);
    assert(before.entries[before.entries.len() - 1].user_data == request.user_data);
    assert(before.queued(request.user_data));
}

/// The kernel's queue does everything but truncate.
pub proof fn law_accepts<S>(state: &State<S>, request: &Request<S>, accepts: bool)
    requires
        call_ensures(State::<S>::accepts, (state, request), accepts),
    ensures
        request.operation is Truncate ==> !accepts,
        state@.requests.dom().contains(request.user_data) ==> !accepts,
        !(request.operation is Truncate) && !state@.requests.dom().contains(request.user_data)
            ==> accepts,
{
}

/// There is nothing to wait for if and only if nothing is under way, as at the beginning, when there
/// is nothing to submit either. More is wanted until there are as many to submit as there may be.
pub proof fn law_nothing_under_way<S>(
    new: State<S>,
    state: &State<S>,
    empty: (bool, bool),
    max: usize,
    more: bool,
)
    requires
        call_ensures(State::<S>::new, (), new),
        call_ensures(State::<S>::is_empty, (&new,), empty.0),
        call_ensures(State::<S>::is_empty, (state,), empty.1),
        call_ensures(State::<S>::wants_more, (state, max), more),
    ensures
        new@.entries.len() == 0,
        empty.0,
        empty.1 <==> forall|user_data: usize| !#[trigger] state@.requests.dom().contains(user_data),
        more <==> state@.entries.len() + 1 <= max,
{
    if forall|user_data: usize| !#[trigger] state@.requests.dom().contains(user_data) {
        assert(state@.requests =~= Map::<usize, Request<S>>::empty());
    }
}

} // verus!
