//! The user-space runtime: error codes, process helpers, console and system-call results.
pub mod allocator;
pub mod error;
pub mod io;
pub mod process;
pub mod sys;
