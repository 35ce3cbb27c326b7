use zeus::exception::TrapFrame;
use zeus::kernel::syscall::{finish_fork, finish_read, finish_write, resume, syscall, Request, Syscall};
use zeus::process::Context;
use zeus::stdlib::error::Error;

#[test]
fn syscall_numbers() {
    assert_eq!(Syscall::from(0), Syscall::Write);
    assert_eq!(Syscall::from(1), Syscall::Read);
    assert_eq!(Syscall::from(57), Syscall::Fork);
    assert_eq!(Syscall::from(59), Syscall::Execve);
    assert_eq!(Syscall::from(60), Syscall::Spawn);
    assert_eq!(Syscall::from(93), Syscall::Exit);
    assert_eq!(zeus::syscall::Syscall::from(93), zeus::syscall::Syscall::Exit);
    assert_eq!(zeus::syscall::Syscall::from(1), zeus::syscall::Syscall::Read);
}

#[test]
fn decode_write() {
    let mut f = TrapFrame::new();
    f.regs[16] = 0;
    f.regs[15] = 0x1_0000_0003;
    f.regs[14] = 12;
    f.regs[13] = 0x8000;
    assert_eq!(syscall(&f), Request::Write { fd: 3, addr: 0x8000, len: 12 });
}

#[test]
fn decode_read() {
    let mut f = TrapFrame::new();
    f.regs[16] = 1;
    f.regs[15] = 4;
    f.regs[14] = 9;
    assert_eq!(syscall(&f), Request::Read { fd: 4, len: 9 });
}

#[test]
fn statuses() {
    let mut f = TrapFrame::new();
    finish_write(&mut f, Err(Error::NoSuchFd));
    assert_eq!(f.regs[16], 5);
    finish_write(&mut f, Ok(()));
    assert_eq!(f.regs[16], 0);
    finish_read(&mut f, Ok(0x1234));
    assert_eq!((f.regs[16], f.regs[15]), (0, 0x1234));
    finish_read(&mut f, Err(Error::Barrier));
    assert_eq!(f.regs[16], 7);
    f.regs[16] = 9;
    finish_fork(&mut f);
    assert_eq!(f.regs[16], 0);
}

#[test]
fn resume_moves_back_over_the_call() {
    let mut frame = TrapFrame::new();
    frame.regs[2] = 77;
    let (f, pc) = resume(&Context::new(frame, 0x1004));
    assert_eq!(pc, 0x1000);
    assert_eq!(f.regs[2], 77);
}
