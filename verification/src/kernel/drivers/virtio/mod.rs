//! Virtio drivers.
pub mod blk;
