//! What a user program makes of the registers a system call returns.
use vstd::prelude::*;
use super::error::Error;

verus! {

/// The descriptor of the console.
pub const STDIO: u32 = 0;

/// System call number of `write`.
pub const SYS_WRITE: u64 = 0;

/// System call number of `read`.
pub const SYS_READ: u64 = 1;

/// System call number of `exit`.
pub const SYS_EXIT: u64 = 93;

/// What a status register value says of a call: the error it stands for, or success with
/// `value`.
pub open spec fn outcome<T>(status: u32, value: T) -> Result<T, Error> {
    match Error::spec_from(status) {
        Some(e) => Err(e),
        None => Ok(value),
    }
}

/// The result of a `write` call with this status.
pub fn write_result(status: u32) -> (r: Result<(), Error>)
    ensures
        r == outcome(status, ()),
{
    match Error::from(status) {
        Some(e) => Err(e),
        None => Ok(()),
    }
}

/// The result of a `read` call with this status, returning the buffer address on success.
pub fn read_result(status: u32, addr: u64) -> (r: Result<u64, Error>)
    ensures
        r == outcome(status, addr),
{
    match Error::from(status) {
        Some(e) => Err(e),
        None => Ok(addr),
    }
}

} // verus!
