[package]
name = "os_core"
version = "0.1.0"
edition = "2021"
publish = false

[dependencies]
xmas-elf = "0.7.0"
riscv = "0.10.1"
lazy_static = { version = "1.4.0", features = ["spin_no_std"] }
spin = "0.7.0"
bitflags = "1.2.1"
buddy_system_allocator = "0.6"
