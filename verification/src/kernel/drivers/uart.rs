//! The kernel's serial console driver.
pub use crate::drivers::uart::Uart;
