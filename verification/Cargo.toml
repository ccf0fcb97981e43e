[package]
name = "ignite"
version = "0.4.0"
edition = "2021"
publish = false

[dependencies]
log = "0.4"
redox_syscall = "0.5"
uefi = "0.28"
uefi-services = { version = "0.25", default-features = false }
