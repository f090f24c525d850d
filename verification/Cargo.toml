[package]
name = "provisioner"
version = "0.1.0"
edition = "2021"
publish = false

[dependencies]
bitvec = { version = "0.20", default-features = false, features = ["alloc"] }
futures = "0.3"
futures-timer = "3"
thiserror = "1"
tracing = "0.1"
