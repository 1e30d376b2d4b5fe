[package]
name = "vmmon"
version = "0.1.0"
edition = "2021"
publish = false

[dependencies]
memmap2 = "*"
goblin = "*"
kvm-ioctls = "*"
kvm-bindings = "*"
clap = { version = "*", features = ["derive"] }
