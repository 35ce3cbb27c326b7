//! System call numbers of the first kernel.
use vstd::prelude::*;

verus! {

#[derive(Debug, Clone, Copy, PartialEq, Eq, Structural)]
pub enum Syscall {
    Write,
    Read,
    Exit,
}

/// The system call a number names, if any.
pub open spec fn syscall_of(value: u64) -> Option<Syscall> {
    if value == 0 {
        Some(Syscall::Write)
    } else if value == 1 {
        Some(Syscall::Read)
    } else if value == 93 {
        Some(Syscall::Exit)
    } else {
        None
    }
}

impl Syscall {
    /// The system call numbered `value`; the kernel stops on an unknown number.
    pub fn from(value: u64) -> (s: Syscall)
        requires
            syscall_of(value) is Some,
        ensures
            syscall_of(value) == Some(s),
    {
        match value {
            0 => Syscall::Write,
            1 => Syscall::Read,
            _ => Syscall::Exit,
        }
    }
}

} // verus!
