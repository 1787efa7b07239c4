[package]
name = "address_space"
version = "0.1.0"
edition = "2021"
publish = false

[dependencies]
arc-swap = "*"
byteorder = "*"
kvm-bindings = "*"
kvm-ioctls = "*"
libc = "*"
vmm-sys-util = "*"
