//! The kernel: file system, drivers, program loader, shell and system calls.
pub mod fs;
pub mod syscall;
pub mod drivers;
pub mod shell;
pub mod process;
