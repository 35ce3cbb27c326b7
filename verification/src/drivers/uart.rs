//! The 16550 serial console.
use vstd::prelude::*;

verus! {

/// Base address of the console's registers.
pub const UART_BASE: u64 = 0x10000000;

/// Offset of the line status register.
pub const LINE_STATUS: u64 = 5;

/// The serial console, by the address of its registers.
#[derive(Debug, Clone, Copy, PartialEq, Eq, Structural)]
pub struct Uart {
    pub base: u64,
}

impl Uart {
    pub fn new() -> (u: Uart)
        ensures
            u.base == UART_BASE,
    {
        Uart { base: UART_BASE }
    }

    /// Address of the data register.
    pub fn data_register(&self) -> (a: u64)
        ensures
            a == self.base,
    {
        self.base
    }

    /// Address of the line status register.
    pub fn line_status_register(&self) -> (a: u64)
        requires
            self.base + LINE_STATUS <= u64::MAX,
        ensures
            a == self.base + LINE_STATUS,
    {
        self.base + LINE_STATUS
    }

    /// A byte has arrived: bit 0 of the line status.
    pub fn data_ready(line_status: u8) -> (r: bool)
        ensures
            r == (line_status & 1 != 0),
    {
        line_status & 1 != 0
    }

    /// The byte a read returns: the data register's byte when one has arrived.
    pub fn read(line_status: u8, data: u8) -> (r: Option<u8>)
        ensures
            r == (if line_status & 1 != 0 {
                Some(data)
            } else {
                None::<u8>
            }),
    {
        if Self::data_ready(line_status) {
            Some(data)
        } else {
            None
        }
    }
}

} // verus!
