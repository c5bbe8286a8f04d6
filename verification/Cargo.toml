[package]
name = "shardedrw"
version = "0.1.0"
edition = "2021"
publish = false

[dependencies]
crossbeam-utils = { version = "=0.8.23", default-features = false }
kasino = { version = "=0.2.0", features = ["alloc"] }
portable-atomic = { version = "=1.15.0", default-features = false }
