//! Multi-threading task facility building on cooperative stackful coroutine.

pub mod attribute;
pub mod channel;
pub mod coroutine;
pub mod error;
pub mod fs;
pub mod io;
pub mod net;
pub mod parse;
pub mod runtime;
pub mod select;
pub mod task;
pub mod time;
