//! Device drivers: the serial console and virtio devices.
pub mod uart;
pub mod virtio;
pub mod virtio_depricated;
