//! Entry of a coroutine.

use vstd::prelude::*;

use super::stack::StackSize;

verus! {

/// Arguments of the entry function of a coroutine. Its address comes in two halves, since entry
/// functions take only integers of 32 bits.
#[derive(Debug)]
pub struct Entry {
    pub arg1: u32,
    pub arg2: u32,
    pub stack_size: StackSize,
}

/// Address whose upper and lower half are given.
pub open spec fn spec_address(upper: u32, lower: u32) -> int {
    upper * 0x1_0000_0000 + lower
}

impl Entry {
    /// Constructs an entry to the coroutine at `address`.
    pub fn new(address: u64, stack_size: StackSize) -> (entry: Self)
        ensures
            spec_address(entry.arg1, entry.arg2) == address,
            entry.stack_size == stack_size,
    {
        Entry {
            arg1: (address / 0x1_0000_0000) as u32,
            arg2: (address % 0x1_0000_0000) as u32,
            stack_size,
        }
    }

    /// Address of the coroutine, given the arguments of its entry function.
    pub fn address(arg1: u32, arg2: u32) -> (address: u64)
        ensures
            address == spec_address(arg1, arg2),
    {
        arg1 as u64 * 0x1_0000_0000 + arg2 as u64
    }
}

/// The entry function finds the coroutine where it is: the halves of an address are put together to
/// it, the upper one first.
pub proof fn law_address_round_trip(
    address: u64,
    stack_size: StackSize,
    entry: Entry,
    again: u64,
    exchanged: u64,
)
    requires
        call_ensures(Entry::new, (address, stack_size), entry),
        call_ensures(Entry::address, (entry.arg1, entry.arg2), again),
        call_ensures(Entry::address, (entry.arg2, entry.arg1), exchanged),
    ensures
        again == address,
        address < 0x1_0000_0000 ==> entry.arg1 == 0 && entry.arg2 == address,
        exchanged == entry.arg2 * 0x1_0000_0000 + entry.arg1,
        entry.stack_size == stack_size,
{
}

} // verus!
