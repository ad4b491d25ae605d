[package]
name = "grevm"
version = "3.0.0"
edition = "2021"
publish = false

[dependencies]
ahash = "0.8"
alloy-evm = { version = "*", default-features = false, features = ["std"] }
dashmap = "6"
metrics = "*"
metrics-derive = "*"
parking_lot = "0.12"
revm = { version = "*", default-features = false, features = ["std"] }
revm-context = "*"
revm-database = "*"
revm-primitives = "*"
revm-state = "*"
tracing = "0.1"
