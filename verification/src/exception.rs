//! Trap causes and the register file saved on a trap.
use vstd::prelude::*;

verus! {

/// Timer ticks between two timer interrupts.
pub const TIME_OFFSET: u64 = 10000000;

/// An interrupt cause.
#[derive(Debug, Clone, Copy, PartialEq, Eq, Structural)]
pub enum Interrupt {
    MachineSoftware,
    SupervisorTimer,
    MachineTimer,
    MachineExternal,
    Unknown,
}

/// An exception cause.
#[derive(Debug, Clone, Copy, PartialEq, Eq, Structural)]
pub enum Exception {
    IllegalInstruction,
    SyscallUser,
    SyscallSupervisor,
    SyscallMachine,
    Unknown,
}

/// A trap cause: the top bit of the cause register tells interrupts from exceptions.
#[derive(Debug, Clone, Copy, PartialEq, Eq, Structural)]
pub enum TrapKind {
    Interrupt(Interrupt),
    Exception(Exception),
}

/// The interrupt that the low twelve bits of a cause number.
pub open spec fn interrupt_of(mcause: u64) -> Interrupt {
    let code = mcause & 0xfff;
    if code == 3 {
        Interrupt::MachineSoftware
    } else if code == 5 {
        Interrupt::SupervisorTimer
    } else if code == 7 {
        Interrupt::MachineTimer
    } else if code == 11 {
        Interrupt::MachineExternal
    } else {
        Interrupt::Unknown
    }
}

/// The exception that the low twelve bits of a cause number.
pub open spec fn exception_of(mcause: u64) -> Exception {
    let code = mcause & 0xfff;
    if code == 2 {
        Exception::IllegalInstruction
    } else if code == 8 {
        Exception::SyscallUser
    } else if code == 9 {
        Exception::SyscallSupervisor
    } else if code == 11 {
        Exception::SyscallMachine
    } else {
        Exception::Unknown
    }
}

/// The kind of trap a cause register names.
pub open spec fn trap_kind_of(mcause: u64) -> TrapKind {
    if (mcause >> 63u64) & 1 == 1 {
        TrapKind::Interrupt(interrupt_of(mcause))
    } else {
        TrapKind::Exception(exception_of(mcause))
    }
}

impl Interrupt {
    pub fn from(mcause: u64) -> (i: Interrupt)
        ensures
            i == interrupt_of(mcause),
    {
        match mcause & 0xfff {
            3 => Interrupt::MachineSoftware,
            5 => Interrupt::SupervisorTimer,
            7 => Interrupt::MachineTimer,
            11 => Interrupt::MachineExternal,
            _ => Interrupt::Unknown,
        }
    }
}

impl Exception {
    pub fn from(mcause: u64) -> (e: Exception)
        ensures
            e == exception_of(mcause),
    {
        match mcause & 0xfff {
            2 => Exception::IllegalInstruction,
            8 => Exception::SyscallUser,
            9 => Exception::SyscallSupervisor,
            11 => Exception::SyscallMachine,
            _ => Exception::Unknown,
        }
    }
}

impl TrapKind {
    pub fn from(mcause: u64) -> (k: TrapKind)
        ensures
            k == trap_kind_of(mcause),
    {
        match (mcause >> 63) & 1 {
            1 => TrapKind::Interrupt(Interrupt::from(mcause)),
            _ => TrapKind::Exception(Exception::from(mcause)),
        }
    }
}

/// What the trap handler does for a trap.
#[derive(Debug, Clone, Copy, PartialEq, Eq, Structural)]
pub enum TrapAction {
    /// Report a machine software interrupt.
    MachineSoftware,
    /// Re-arm the timer `TIME_OFFSET` ticks ahead, clear the pending timer bit and report.
    Timer,
    /// Report a machine timer interrupt.
    MachineTimer,
    /// Report a machine external interrupt.
    MachineExternal,
    /// Report an unknown interrupt with the cause, trap value and program counter.
    UnknownInterrupt,
    /// Stop the kernel: exceptions are fatal.
    Fatal(Exception),
}

/// The handler's response to the trap that `scause` names.
pub open spec fn trap_action_of(scause: u64) -> TrapAction {
    match trap_kind_of(scause) {
        TrapKind::Interrupt(i) => match i {
            Interrupt::MachineSoftware => TrapAction::MachineSoftware,
            Interrupt::SupervisorTimer => TrapAction::Timer,
            Interrupt::MachineTimer => TrapAction::MachineTimer,
            Interrupt::MachineExternal => TrapAction::MachineExternal,
            Interrupt::Unknown => TrapAction::UnknownInterrupt,
        },
        TrapKind::Exception(e) => TrapAction::Fatal(e),
    }
}

/// The handler by cause: a cause with the top bit set is an interrupt, numbered by its low
/// twelve bits (3 machine software, 5 supervisor timer, 7 machine timer, 11 machine external);
/// any other cause is an exception (2 illegal instruction, 8, 9 and 11 system calls from user,
/// supervisor and machine mode), which stops the kernel.
pub proof fn lemma_trap_actions(scause: u64)
    ensures
        ({
            let code = scause % 4096;
            if scause >= 0x8000_0000_0000_0000 {
                trap_action_of(scause) == if code == 3 {
                    TrapAction::MachineSoftware
                } else if code == 5 {
                    TrapAction::Timer
                } else if code == 7 {
                    TrapAction::MachineTimer
                } else if code == 11 {
                    TrapAction::MachineExternal
                } else {
                    TrapAction::UnknownInterrupt
                }
            } else {
                trap_action_of(scause) == TrapAction::Fatal(
                    if code == 2 {
                        Exception::IllegalInstruction
                    } else if code == 8 {
                        Exception::SyscallUser
                    } else if code == 9 {
                        Exception::SyscallSupervisor
                    } else if code == 11 {
                        Exception::SyscallMachine
                    } else {
                        Exception::Unknown
                    },
                )
            }
        }),
{
    assert(scause & 0xfff == scause % 4096) by (bit_vector);
    assert(((scause >> 63u64) & 1 == 1) == (scause >= 0x8000_0000_0000_0000)) by (bit_vector);
}

/// Decides what the supervisor trap handler does for the trap that `scause` names.
pub fn s_handle_trap(scause: u64) -> (a: TrapAction)
    ensures
        a == trap_action_of(scause),
{
    match TrapKind::from(scause) {
        TrapKind::Interrupt(interrupt) => match interrupt {
            Interrupt::MachineSoftware => TrapAction::MachineSoftware,
            Interrupt::SupervisorTimer => TrapAction::Timer,
            Interrupt::MachineTimer => TrapAction::MachineTimer,
            Interrupt::MachineExternal => TrapAction::MachineExternal,
            Interrupt::Unknown => TrapAction::UnknownInterrupt,
        },
        TrapKind::Exception(exception) => TrapAction::Fatal(exception),
    }
}

/// The registers saved on a trap: `regs[0]` is `ra`, `regs[1]` is `sp`, and so on in
/// register order, with `a0` at 9 and `a7` at 16.
#[derive(Debug, Clone, Copy)]
pub struct TrapFrame {
    pub regs: [u64; 32],
}

impl TrapFrame {
    /// All registers zero.
    pub fn new() -> (t: TrapFrame)
        ensures
            t.regs@ == Seq::new(32, |i: int| 0u64),
    {
        let t = TrapFrame { regs: [0u64; 32] };
        proof {
            assert(t.regs@ =~= Seq::new(32, |i: int| 0u64));
        }
        t
    }
}

} // verus!
