//! Errors of the on-disk file system.
use vstd::prelude::*;

verus! {

/// What can go wrong in the file system.
#[derive(Debug, Clone, Copy, PartialEq, Eq, Structural)]
pub enum Error {
    InvalidPath,
    ExpectedFile,
    OutOfBounds,
    OutOfFd,
    NoSuchFd,
    LimitedSpace,
}

impl Error {
    /// The error's number, as the kernel reports it.
    pub open spec fn spec_code(self) -> u8 {
        match self {
            Error::InvalidPath => 1,
            Error::ExpectedFile => 2,
            Error::OutOfBounds => 3,
            Error::OutOfFd => 4,
            Error::NoSuchFd => 5,
            Error::LimitedSpace => 6,
        }
    }

    pub fn code(&self) -> (c: u8)
        ensures
            c == self.spec_code(),
    {
        match self {
            Error::InvalidPath => 1,
            Error::ExpectedFile => 2,
            Error::OutOfBounds => 3,
            Error::OutOfFd => 4,
            Error::NoSuchFd => 5,
            Error::LimitedSpace => 6,
        }
    }
}

} // verus!
