//! Drivers of the kernel.
pub mod uart;
pub mod virtio;
