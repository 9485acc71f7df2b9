//! Channel utilities for communication across coroutines and tasks.

pub mod error;
pub mod order;
pub mod parallel;
pub mod serial;
pub mod shared;

pub use self::error::{SendError, TryRecvError, TrySendError};
