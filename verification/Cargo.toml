[package]
name = "kernel_core"
version = "0.1.0"
edition = "2021"
publish = false

[dependencies]
riscv = "*"
log = "0.4"
lazy_static = "1"
bitflags = "1"
virtio-drivers = "*"
