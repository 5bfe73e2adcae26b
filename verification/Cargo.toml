[package]
name = "sp-tracing"
version = "0.1.0"
edition = "2021"
publish = false

[dependencies]
parity-scale-codec = { version = "3", features = ["derive"] }
sp-std = "14"
tracing = { version = "0.1", default-features = false, features = ["std"] }
tracing-core = "0.1"
