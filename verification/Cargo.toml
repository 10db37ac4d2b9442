[package]
name = "rcore_os"
version = "0.1.0"
edition = "2021"
publish = false

[dependencies]
buddy_system_allocator = "0.6"
lazy_static = "1.4"
log = "0.4"
riscv = "0.10"
