//! zeus: the verified core of a small riscv64 kernel, its user-space runtime and its
//! disk-image builder.
pub mod memory;
pub mod kernel;
pub mod stdlib;
pub mod exception;
pub mod process;
pub mod syscall;
pub mod drivers;
pub mod fs;
pub mod mkfs;
