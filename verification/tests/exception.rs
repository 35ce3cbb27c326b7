use zeus::exception::{s_handle_trap, Exception, Interrupt, TrapAction, TrapFrame, TrapKind};

#[test]
fn interrupt_causes() {
    assert_eq!(Interrupt::from(3), Interrupt::MachineSoftware);
    assert_eq!(Interrupt::from(5), Interrupt::SupervisorTimer);
    assert_eq!(Interrupt::from(7), Interrupt::MachineTimer);
    assert_eq!(Interrupt::from(11), Interrupt::MachineExternal);
    assert_eq!(Interrupt::from(4), Interrupt::Unknown);
    assert_eq!(Interrupt::from(0x1005), Interrupt::SupervisorTimer);
}

#[test]
fn exception_causes() {
    assert_eq!(Exception::from(2), Exception::IllegalInstruction);
    assert_eq!(Exception::from(8), Exception::SyscallUser);
    assert_eq!(Exception::from(9), Exception::SyscallSupervisor);
    assert_eq!(Exception::from(11), Exception::SyscallMachine);
    assert_eq!(Exception::from(1), Exception::Unknown);
}

#[test]
fn top_bit_separates_interrupts() {
    assert_eq!(TrapKind::from((1u64 << 63) | 5), TrapKind::Interrupt(Interrupt::SupervisorTimer));
    assert_eq!(TrapKind::from(5), TrapKind::Exception(Exception::Unknown));
    assert_eq!(TrapKind::from(8), TrapKind::Exception(Exception::SyscallUser));
}

#[test]
fn handler_actions() {
    assert_eq!(s_handle_trap((1u64 << 63) | 5), TrapAction::Timer);
    assert_eq!(s_handle_trap((1u64 << 63) | 3), TrapAction::MachineSoftware);
    assert_eq!(s_handle_trap((1u64 << 63) | 6), TrapAction::UnknownInterrupt);
    assert_eq!(s_handle_trap(2), TrapAction::Fatal(Exception::IllegalInstruction));
}

#[test]
fn trap_frame_starts_zeroed() {
    assert_eq!(TrapFrame::new().regs, [0u64; 32]);
}
