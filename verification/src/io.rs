//! File operations that do not block scheduling threads.

pub mod operation;
pub mod pool;
pub mod uring;

use vstd::prelude::*;

use self::operation::{OpCode, Operation};

verus! {

/// Who serves an operation.
#[derive(Debug, Clone, Copy, PartialEq, Eq, Structural)]
pub enum Route {
    /// Pool of blocking threads.
    Pool,
    /// Submission queue of the kernel.
    Uring,
}

/// Who serves operations of that code, given whether the kernel has a submission queue.
pub open spec fn spec_route(opcode: OpCode, has_uring: bool) -> Route {
    if opcode == OpCode::Truncate || !has_uring {
        Route::Pool
    } else {
        Route::Uring
    }
}

/// Finds out who serves an operation: all but truncation go to the kernel's queue, if it has one.
pub fn send(operation: &Operation, has_uring: bool) -> (route: Route)
    ensures
        route == spec_route(operation.spec_opcode(), has_uring),
{
    match operation {
        Operation::Truncate { fd: _, size: _ } => Route::Pool,
        _ => if has_uring {
            Route::Uring
        } else {
            Route::Pool
        },
    }
}

/// Finds out how to cancel an operation that was sent: by another operation for the kernel's queue,
/// unless it went to the pool, where it cannot be cancelled.
pub fn cancel(opcode: OpCode, user_data: usize, has_uring: bool) -> (cancel: Option<Operation>)
    ensures
        cancel == if spec_route(opcode, has_uring) == Route::Pool {
            None
        } else {
            Some(Operation::Cancel { user_data })
        },
{
    if opcode == OpCode::Truncate || !has_uring {
        return None;
    }
    Some(Operation::Cancel { user_data })
}

/// A request to cancel goes where the cancelled operation went.
pub proof fn law_cancel_follows(opcode: OpCode, user_data: usize, has_uring: bool)
    ensures
        spec_route(opcode, has_uring) == Route::Uring ==> spec_route(
            Operation::Cancel { user_data }.spec_opcode(),
            has_uring,
        ) == Route::Uring,
{
}

/// Number of threads in the pool: there is less to do where the kernel has a queue.
pub fn pool_size(has_uring: bool) -> (size: usize)
    ensures
        size == if has_uring {
            2
        } else {
            4usize
        },
{
    if has_uring {
        2
    } else {
        4
    }
}

/// Branches that a serving thread selects from.
#[derive(Debug, Clone, Copy, PartialEq, Eq, Structural)]
pub struct Branches {
    /// Next request.
    pub request: bool,
    /// Signal to accept no more requests.
    pub closing: bool,
    /// Completion of submitted requests.
    pub readable: bool,
}

/// Finds out what the thread of the kernel's queue selects from: nothing once all requests have
/// completed and no more will come.
pub fn serve(empty: bool, drained: bool, closed: bool) -> (branches: Option<Branches>)
    ensures
        branches == if empty && drained {
            None
        } else {
            Some(Branches { request: !drained, closing: !closed, readable: true })
        },
{
    if empty && drained {
        return None;
    }
    Some(Branches { request: !drained, closing: !closed, readable: true })
}

/// Without a queue of the kernel the pool serves everything, and with one only what the queue cannot
/// do. Whatever is sent is served by one who can do it.
pub proof fn law_route<S>(
    request: &uring::Request<S>,
    state: &uring::State<S>,
    has_uring: bool,
    route: Route,
    accepts: bool,
)
    requires
        call_ensures(send, (&request.operation, has_uring), route),
        call_ensures(uring::State::<S>::accepts, (state, request), accepts),
        !state@.requests.dom().contains(request.user_data),
    ensures
        !has_uring ==> route is Pool,
        has_uring ==> (route is Uring <==> accepts),
        request.operation is Truncate ==> route is Pool,
        has_uring && !(request.operation is Truncate) ==> route is Uring,
{
}

/// An operation can be cancelled if and only if the kernel's queue serves it, by a request for it
/// alone that the same queue serves.
pub proof fn law_cancel(
    operation: &Operation,
    opcode: OpCode,
    user_data: usize,
    has_uring: bool,
    route: Route,
    cancelling: Option<Operation>,
    followed: Route,
)
    requires
        call_ensures(Operation::opcode, (operation,), opcode),
        call_ensures(send, (operation, has_uring), route),
        call_ensures(cancel, (opcode, user_data, has_uring), cancelling),
        cancelling is Some ==> call_ensures(send, (&cancelling->0, has_uring), followed),
    ensures
        cancelling is Some <==> route is Uring,
        cancelling is Some ==> cancelling->0 is Cancel && cancelling->0->Cancel_user_data
            == user_data && followed is Uring,
{
}

/// The pool is half as large where the kernel has a queue, and never empty.
pub proof fn law_pool_size(alone: usize, beside: usize)
    requires
        call_ensures(pool_size, (false,), alone),
        call_ensures(pool_size, (true,), beside),
    ensures
        alone == 4,
        alone == 2 * beside,
{
}

/// The thread of the kernel's queue ends only when nothing is under way and nothing more will come.
/// Until then it waits for completions, for requests while some may come, and for the signal that
/// none will until it had it.
pub proof fn law_serve(empty: bool, drained: bool, closed: bool, branches: Option<Branches>)
    requires
        call_ensures(serve, (empty, drained, closed), branches),
    ensures
        branches is None ==> empty && drained,
        empty && drained ==> branches is None,
        branches is Some ==> {
            &&& branches->0.readable
            &&& branches->0.request != drained
            &&& branches->0.closing != closed
        },
{
}

} // verus!
