[package]
name = "enrs"
version = "0.1.0"
edition = "2021"
publish = false

[dependencies]
indexmap = "=1.9.3"
smol_str = "=0.1.24"
owning_ref = "=0.4.1"
arrayvec = "=0.5.2"
smallvec = "=1.16.4"
tinyvec = { version = "=1.13.3", features = ["alloc"] }
generic-array = "=0.14.9"
