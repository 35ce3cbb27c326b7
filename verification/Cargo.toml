[package]
name = "zeus"
version = "0.1.0"
edition = "2021"
publish = false

[dependencies]
elf = { version = "*", default-features = false }
spin = "*"
virtio-drivers = "*"
