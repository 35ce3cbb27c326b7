//! The kernel's system call interface.
//!
//! The number is in `a7` (`regs[16]`); arguments come in `a6`, `a5` and `a4` (`regs[15]`,
//! `regs[14]`, `regs[13]`); the status goes back in `a7` (0 for success, else the error's
//! number) and a read's buffer address in `a6`.
use vstd::prelude::*;
use crate::exception::TrapFrame;
use crate::process::Context;
use crate::stdlib::error::{lemma_code_roundtrip, Error};
use crate::stdlib::sys::outcome;

verus! {

#[derive(Debug, Clone, Copy, PartialEq, Eq, Structural)]
pub enum Syscall {
    Write,
    Read,
    Fork,
    Execve,
    Spawn,
    Exit,
}

/// The system call a number names, if any.
pub open spec fn syscall_of(value: u64) -> Option<Syscall> {
    if value == 0 {
        Some(Syscall::Write)
    } else if value == 1 {
        Some(Syscall::Read)
    } else if value == 57 {
        Some(Syscall::Fork)
    } else if value == 59 {
        Some(Syscall::Execve)
    } else if value == 60 {
        Some(Syscall::Spawn)
    } else if value == 93 {
        Some(Syscall::Exit)
    } else {
        None
    }
}

impl Syscall {
    /// `value` numbers a system call.
    pub fn known(value: u64) -> (r: bool)
        ensures
            r == syscall_of(value) is Some,
    {
        value == 0 || value == 1 || value == 57 || value == 59 || value == 60 || value == 93
    }

    /// The system call numbered `value`; the kernel stops on an unknown number.
    pub fn from(value: u64) -> (s: Syscall)
        requires
            syscall_of(value) is Some,
        ensures
            syscall_of(value) == Some(s),
    {
        match value {
            0 => Syscall::Write,
            1 => Syscall::Read,
            57 => Syscall::Fork,
            59 => Syscall::Execve,
            60 => Syscall::Spawn,
            _ => Syscall::Exit,
        }
    }
}

/// A system call with its arguments.
#[derive(Debug, Clone, Copy, PartialEq, Eq, Structural)]
#[allow(inconsistent_fields)]
pub enum Request {
    /// Write `len` bytes at user address `addr` to descriptor `fd`.
    Write { fd: u32, addr: u64, len: u64 },
    /// Read `len` bytes from descriptor `fd`.
    Read { fd: u32, len: u32 },
    Fork,
    Execve,
    Spawn,
    Exit,
}

/// The request a trap frame carries.
pub open spec fn request_of(regs: Seq<u64>) -> Request {
    match syscall_of(regs[16]) {
        Some(Syscall::Write) => Request::Write { fd: regs[15] as u32, addr: regs[13], len: regs[14] },
        Some(Syscall::Read) => Request::Read { fd: regs[15] as u32, len: regs[14] as u32 },
        Some(Syscall::Fork) => Request::Fork,
        Some(Syscall::Execve) => Request::Execve,
        Some(Syscall::Spawn) => Request::Spawn,
        _ => Request::Exit,
    }
}

/// Decodes the system call in a trap frame.
pub fn syscall(trapframe: &TrapFrame) -> (r: Request)
    requires
        syscall_of(trapframe.regs@[16]) is Some,
    ensures
        r == request_of(trapframe.regs@),
{
    let call = Syscall::from(trapframe.regs[16]);
    match call {
        Syscall::Write => Request::Write {
            fd: trapframe.regs[15] as u32,
            addr: trapframe.regs[13],
            len: trapframe.regs[14],
        },
        Syscall::Read => Request::Read { fd: trapframe.regs[15] as u32, len: trapframe.regs[14] as u32 },
        Syscall::Fork => Request::Fork,
        Syscall::Execve => Request::Execve,
        Syscall::Spawn => Request::Spawn,
        Syscall::Exit => Request::Exit,
    }
}

/// The status register value of a result: 0 for success, the error's number otherwise.
pub open spec fn status_of<T>(r: Result<T, Error>) -> u64 {
    match r {
        Ok(_) => 0,
        Err(e) => e.spec_code() as u64,
    }
}

/// Stores the status of a write.
pub fn finish_write(frame: &mut TrapFrame, status: Result<(), Error>)
    ensures
        final(frame).regs@ == old(frame).regs@.update(16, status_of(status)),
{
    let code: u64 = match status {
        Ok(()) => 0,
        Err(e) => e.code() as u64,
    };
    frame.regs[16] = code;
}

/// Stores the outcome of a read: status 0 and the buffer address, or the error's number.
pub fn finish_read(frame: &mut TrapFrame, result: Result<u64, Error>)
    ensures
        match result {
            Ok(addr) => final(frame).regs@ == old(frame).regs@.update(16, 0).update(15, addr),
            Err(e) => final(frame).regs@ == old(frame).regs@.update(16, e.spec_code() as u64),
        },
{
    match result {
        Ok(addr) => {
            frame.regs[16] = 0;
            frame.regs[15] = addr;
        },
        Err(e) => {
            frame.regs[16] = e.code() as u64;
        },
    }
}

/// Stores the status of a fork.
pub fn finish_fork(frame: &mut TrapFrame)
    ensures
        final(frame).regs@ == old(frame).regs@.update(16, 0),
{
    frame.regs[16] = 0;
}

/// Where execution resumes after an exit: the next process's registers, and its program
/// counter moved back over the call instruction.
pub fn resume(context: &Context) -> (r: (TrapFrame, u64))
    requires
        context.epc >= 4,
    ensures
        r.0 == context.frame,
        r.1 == context.epc - 4,
{
    (context.frame, context.epc - 4)
}

/// A system call's result survives the trip through the status register: what the kernel
/// stores for a write or read result (`finish_write`, `finish_read`), read back by the user
/// program as a 32-bit status (`write_result`, `read_result`), is that result again.
pub proof fn lemma_status_roundtrip(w: Result<(), Error>, r: Result<u64, Error>)
    ensures
        outcome(status_of(w) as u32, ()) == w,
        outcome(status_of(r) as u32, match r {
            Ok(addr) => addr,
            Err(_) => 0,
        }) == r,
{
    match w {
        Ok(u) => {
            assert(Error::spec_from(0) == None::<Error>);
            assert(u == ());
        },
        Err(e) => lemma_code_roundtrip(e),
    }
    match r {
        Ok(_) => {},
        Err(e) => lemma_code_roundtrip(e),
    }
}

/// The system call numbers of the kernel's interface: 0 writes `a5` bytes at user address
/// `a4` to descriptor `a6`; 1 reads `a5` bytes from descriptor `a6`; 57 forks, 59 executes a
/// program, 60 spawns one and 93 exits. Every other number names no call.
pub proof fn lemma_call_numbers(regs: Seq<u64>)
    requires
        regs.len() == 32,
    ensures
        regs[16] == 0 ==> request_of(regs) == (Request::Write {
            fd: regs[15] as u32,
            addr: regs[13],
            len: regs[14],
        }),
        regs[16] == 1 ==> request_of(regs) == (Request::Read { fd: regs[15] as u32, len: regs[14] as u32 }),
        regs[16] == 57 ==> request_of(regs) == Request::Fork,
        regs[16] == 59 ==> request_of(regs) == Request::Execve,
        regs[16] == 60 ==> request_of(regs) == Request::Spawn,
        regs[16] == 93 ==> request_of(regs) == Request::Exit,
        (syscall_of(regs[16]) is Some) == (regs[16] == 0 || regs[16] == 1 || regs[16] == 57
            || regs[16] == 59 || regs[16] == 60 || regs[16] == 93),
{
}

} // verus!
