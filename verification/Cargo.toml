[package]
name = "shard"
version = "0.1.0"
edition = "2021"
publish = false

[dependencies]
crossfire = "*"
prometheus-client = "*"
futures = "*"
tracing = "*"
thiserror = "*"
compio = { version = "*", default-features = false, features = ["net", "runtime", "time"] }
hwlocality = "1.0.0-alpha.11"
nix = { version = "*", features = ["sched", "process"] }
