//! Common errors for selectable.

use vstd::prelude::*;

verus! {

/// Error for blocking send.
#[derive(Debug, Copy, Clone, PartialEq, Eq)]
pub enum SendError<T> {
    Closed(T),
}

/// Error for nonblocking send.
#[derive(Debug, Copy, Clone, PartialEq, Eq)]
pub enum TrySendError<T> {
    Full(T),
    Closed(T),
}

/// Error for nonblocking receive.
#[derive(Debug, Copy, Clone, PartialEq, Eq, Structural)]
pub enum TryRecvError {
    Empty,
    Closed,
}

impl<T> SendError<T> {
    /// Converts the error of a send that does not block to that of one that does.
    pub fn from_try(err: TrySendError<T>) -> (send: Self)
        requires
            err is Closed,
        ensures
            send == SendError::Closed(err->Closed_0),
    {
        match err {
            TrySendError::Closed(value) => SendError::Closed(value),
            TrySendError::Full(value) => SendError::Closed(value),
        }
    }
}

impl<T> vstd::std_specs::convert::FromSpecImpl<SendError<T>> for TrySendError<T> {
    open spec fn obeys_from_spec() -> bool {
        true
    }

    open spec fn from_spec(err: SendError<T>) -> Self {
        TrySendError::Closed(err->Closed_0)
    }
}

impl<T> From<SendError<T>> for TrySendError<T> {
    fn from(err: SendError<T>) -> (try_err: Self) {
        let SendError::Closed(value) = err;
        TrySendError::Closed(value)
    }
}

/// Errors give back the value that was not sent, whichever way they are converted.
pub proof fn law_error_keeps_value<T>(value: T, send: SendError<T>, again: TrySendError<T>)
    requires
        call_ensures(SendError::<T>::from_try, (TrySendError::Closed(value),), send),
        call_ensures(<TrySendError<T> as From<SendError<T>>>::from, (send,), again),
    ensures
        send == SendError::Closed(value),
        again == TrySendError::Closed(value),
{
}

} // verus!
