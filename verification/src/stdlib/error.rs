//! Error codes shared by the kernel and user programs.
use vstd::prelude::*;

verus! {

/// What a system call can fail with.
#[derive(Debug, Clone, Copy, PartialEq, Eq, Structural)]
pub enum Error {
    InvalidPath,
    ExpectedFile,
    OutOfBounds,
    OutOfFd,
    NoSuchFd,
    LimitedSpace,
    Barrier,
}

impl Error {
    /// The status number that stands for the error.
    pub open spec fn spec_code(self) -> u32 {
        match self {
            Error::InvalidPath => 1,
            Error::ExpectedFile => 2,
            Error::OutOfBounds => 3,
            Error::OutOfFd => 4,
            Error::NoSuchFd => 5,
            Error::LimitedSpace => 6,
            Error::Barrier => 7,
        }
    }

    /// The error a status number stands for; none for 0 and for unknown numbers.
    pub open spec fn spec_from(status: u32) -> Option<Error> {
        if status == 1 {
            Some(Error::InvalidPath)
        } else if status == 2 {
            Some(Error::ExpectedFile)
        } else if status == 3 {
            Some(Error::OutOfBounds)
        } else if status == 4 {
            Some(Error::OutOfFd)
        } else if status == 5 {
            Some(Error::NoSuchFd)
        } else if status == 6 {
            Some(Error::LimitedSpace)
        } else if status == 7 {
            Some(Error::Barrier)
        } else {
            None
        }
    }

    pub fn from(status: u32) -> (e: Option<Error>)
        ensures
            e == Error::spec_from(status),
    {
        match status {
            1 => Some(Error::InvalidPath),
            2 => Some(Error::ExpectedFile),
            3 => Some(Error::OutOfBounds),
            4 => Some(Error::OutOfFd),
            5 => Some(Error::NoSuchFd),
            6 => Some(Error::LimitedSpace),
            7 => Some(Error::Barrier),
            _ => None,
        }
    }

    pub fn code(&self) -> (c: u32)
        ensures
            c == self.spec_code(),
    {
        match self {
            Error::InvalidPath => 1,
            Error::ExpectedFile => 2,
            Error::OutOfBounds => 3,
            Error::OutOfFd => 4,
            Error::NoSuchFd => 5,
            Error::LimitedSpace => 6,
            Error::Barrier => 7,
        }
    }

    /// The error's message.
    pub fn message(&self) -> (m: &'static str)
        ensures
            m@ == match self {
                Error::InvalidPath => "invalid path"@,
                Error::ExpectedFile => "expected file"@,
                Error::OutOfBounds => "out of bounds"@,
                Error::OutOfFd => "out of fd"@,
                Error::NoSuchFd => "no such fd"@,
                Error::LimitedSpace => "limited space"@,
                Error::Barrier => "barrier"@,
            },
    {
        match self {
            Error::InvalidPath => "invalid path",
            Error::ExpectedFile => "expected file",
            Error::OutOfBounds => "out of bounds",
            Error::OutOfFd => "out of fd",
            Error::NoSuchFd => "no such fd",
            Error::LimitedSpace => "limited space",
            Error::Barrier => "barrier",
        }
    }
}

/// Every error's status number reads back as that error, and 0 reads as success.
pub proof fn lemma_code_roundtrip(e: Error)
    ensures
        Error::spec_from(e.spec_code()) == Some(e),
        Error::spec_from(0) == None::<Error>,
{
}

} // verus!
