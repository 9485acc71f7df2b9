//! Operations on files.

use vstd::prelude::*;

verus! {

/// Operation on a file. Memory that it reads or writes goes by its address.
#[derive(Debug, Clone, Copy, PartialEq, Eq, Structural)]
pub enum Operation {
    Open { path: usize, flags: i32, mode: u32 },
    /// An offset of minus one is where the file is at.
    Read { fd: i32, buf: usize, len: usize, offset: isize },
    /// An offset of minus one is where the file is at.
    Write { fd: i32, buf: usize, len: usize, offset: isize },
    Fsync { fd: i32, only_data: bool },
    Cancel { user_data: usize },
    Truncate { fd: i32, size: u64 },
    Stat { fd: i32, path: usize, metadata: usize },
}

/// Kind of an [Operation].
#[derive(Debug, Clone, Copy, PartialEq, Eq, Structural)]
pub enum OpCode {
    Open,
    Read,
    Write,
    Fsync,
    Cancel,
    Truncate,
    Stat,
}

impl Operation {
    pub open spec fn spec_opcode(self) -> OpCode {
        match self {
            Operation::Open { path: _, flags: _, mode: _ } => OpCode::Open,
            Operation::Read { fd: _, buf: _, len: _, offset: _ } => OpCode::Read,
            Operation::Write { fd: _, buf: _, len: _, offset: _ } => OpCode::Write,
            Operation::Fsync { fd: _, only_data: _ } => OpCode::Fsync,
            Operation::Cancel { user_data: _ } => OpCode::Cancel,
            Operation::Truncate { fd: _, size: _ } => OpCode::Truncate,
            Operation::Stat { fd: _, path: _, metadata: _ } => OpCode::Stat,
        }
    }

    /// Kind of this operation.
    pub fn opcode(&self) -> (opcode: OpCode)
        ensures
            opcode == self.spec_opcode(),
    {
        match self {
            Operation::Open { path: _, flags: _, mode: _ } => OpCode::Open,
            Operation::Read { fd: _, buf: _, len: _, offset: _ } => OpCode::Read,
            Operation::Write { fd: _, buf: _, len: _, offset: _ } => OpCode::Write,
            Operation::Fsync { fd: _, only_data: _ } => OpCode::Fsync,
            Operation::Cancel { user_data: _ } => OpCode::Cancel,
            Operation::Truncate { fd: _, size: _ } => OpCode::Truncate,
            Operation::Stat { fd: _, path: _, metadata: _ } => OpCode::Stat,
        }
    }
}

/// Outcome of a system call: the low bits of what it returned, or the error number if that is
/// negative.
pub open spec fn spec_outcome(rc: int, errno: i32) -> Result<i32, i32> {
    if rc < 0 {
        Err(errno)
    } else {
        Ok(rc as i32)
    }
}

/// The kind of an operation says which it is.
pub proof fn law_opcode(operation: &Operation, opcode: OpCode)
    requires
        call_ensures(Operation::opcode, (operation,), opcode),
    ensures
        opcode is Open <==> operation is Open,
        opcode is Read <==> operation is Read,
        opcode is Write <==> operation is Write,
        opcode is Fsync <==> operation is Fsync,
        opcode is Cancel <==> operation is Cancel,
        opcode is Truncate <==> operation is Truncate,
        opcode is Stat <==> operation is Stat,
{
}

} // verus!
