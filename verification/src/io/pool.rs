//! Operations on blocking threads.

use vstd::prelude::*;

use super::operation;
use super::operation::Operation;

verus! {

/// System call to make.
#[derive(Debug, Clone, Copy, PartialEq, Eq, Structural)]
pub enum Call {
    Open { path: usize, flags: i32, mode: u32 },
    Read { fd: i32, buf: usize, len: usize },
    Pread { fd: i32, buf: usize, len: usize, offset: isize },
    Write { fd: i32, buf: usize, len: usize },
    Pwrite { fd: i32, buf: usize, len: usize, offset: isize },
    SyncData { fd: i32 },
    SyncAll { fd: i32 },
    SetLen { fd: i32, size: u64 },
    Fstat { fd: i32, metadata: usize },
}

/// System call for an operation: the one at an offset unless that is where the file is at.
pub open spec fn spec_process(operation: Operation) -> Call {
    match operation {
        Operation::Open { path, flags, mode } => Call::Open { path, flags, mode },
        Operation::Read { fd, buf, len, offset } => if offset == -1 {
            Call::Read { fd, buf, len }
        } else {
            Call::Pread { fd, buf, len, offset }
        },
        Operation::Write { fd, buf, len, offset } => if offset == -1 {
            Call::Write { fd, buf, len }
        } else {
            Call::Pwrite { fd, buf, len, offset }
        },
        Operation::Fsync { fd, only_data } => if only_data {
            Call::SyncData { fd }
        } else {
            Call::SyncAll { fd }
        },
        Operation::Truncate { fd, size } => Call::SetLen { fd, size },
        Operation::Stat { fd, path: _, metadata } => Call::Fstat { fd, metadata },
        Operation::Cancel { user_data: _ } => arbitrary(),
    }
}

/// Finds the system call for an operation. Nothing is cancelled on blocking threads.
pub fn process(operation: &Operation) -> (call: Call)
    requires
        !(operation is Cancel),
    ensures
        call == spec_process(*operation),
{
    match *operation {
        Operation::Open { path, flags, mode } => Call::Open { path, flags, mode },
        Operation::Read { fd, buf, len, offset } => if offset == -1 {
            Call::Read { fd, buf, len }
        } else {
            Call::Pread { fd, buf, len, offset }
        },
        Operation::Write { fd, buf, len, offset } => if offset == -1 {
            Call::Write { fd, buf, len }
        } else {
            Call::Pwrite { fd, buf, len, offset }
        },
        Operation::Fsync { fd, only_data } => if only_data {
            Call::SyncData { fd }
        } else {
            Call::SyncAll { fd }
        },
        Operation::Truncate { fd, size } => Call::SetLen { fd, size },
        Operation::Stat { fd, path: _, metadata } => Call::Fstat { fd, metadata },
        Operation::Cancel { user_data: _ } => vstd::pervasive::unreached(),
    }
}

/// Outcome of a system call that returned `rc`, with the error number of the thread.
pub fn outcome(rc: isize, errno: i32) -> (outcome: Result<i32, i32>)
    ensures
        outcome == operation::spec_outcome(rc as int, errno),
{
    if rc < 0 {
        Err(errno)
    } else {
        Ok(rc as i32)
    }
}

/// A blocking thread makes the call that the operation is for on what it is on. Reads and writes are
/// made at an offset, whatever it is, unless it is minus one.
pub proof fn law_call(operation: &Operation, call: Call)
    requires
        call_ensures(process, (operation,), call),
    ensures
        *operation matches Operation::Open { path, flags, mode } ==> {
            &&& call is Open
            &&& call->Open_path == path
            &&& call->Open_flags == flags
            &&& call->Open_mode == mode
        },
        *operation matches Operation::Read { fd, buf, len, offset } ==> {
            &&& offset == -1 <==> call is Read
            &&& offset == -1 ==> call->Read_fd == fd && call->Read_buf == buf && call->Read_len
                == len
            &&& offset != -1 <==> call is Pread
            &&& offset != -1 ==> call->Pread_fd == fd && call->Pread_buf == buf && call->Pread_len
                == len && call->Pread_offset == offset
        },
        *operation matches Operation::Write { fd, buf, len, offset } ==> {
            &&& offset == -1 <==> call is Write
            &&& offset == -1 ==> call->Write_fd == fd && call->Write_buf == buf && call->Write_len
                == len
            &&& offset != -1 <==> call is Pwrite
            &&& offset != -1 ==> call->Pwrite_fd == fd && call->Pwrite_buf == buf
                && call->Pwrite_len == len && call->Pwrite_offset == offset
        },
        *operation matches Operation::Fsync { fd, only_data } ==> {
            &&& only_data ==> call is SyncData && call->SyncData_fd == fd
            &&& !only_data ==> call is SyncAll && call->SyncAll_fd == fd
        },
        *operation matches Operation::Truncate { fd, size } ==> {
            &&& call is SetLen
            &&& call->SetLen_fd == fd
            &&& call->SetLen_size == size
        },
        *operation matches Operation::Stat { fd, path: _, metadata } ==> {
            &&& call is Fstat
            &&& call->Fstat_fd == fd
            &&& call->Fstat_metadata == metadata
        },
{
}

/// A call fails with the error number of the thread if and only if it returned a negative number.
/// Otherwise its outcome is what it returned.
pub proof fn law_outcome(rc: isize, errno: i32, outcome: Result<i32, i32>)
    requires
        call_ensures(self::outcome, (rc, errno), outcome),
    ensures
        outcome is Err <==> rc < 0,
        outcome is Err ==> outcome->Err_0 == errno,
        0 <= rc <= i32::MAX ==> outcome is Ok && outcome->Ok_0 == rc,
{
}

} // verus!
