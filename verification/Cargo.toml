[package]
name = "splunklib_rust"
version = "0.2.0"
edition = "2021"
publish = false

[dependencies]
arc-swap = "1"
bytes = "1"
crossbeam-channel = "0.5"
dashmap = "6"
flate2 = "1"
hostname = "0.4"
once_cell = "1"
rand = "0.9"
reqwest = { version = "0.12", default-features = false, features = ["rustls-tls"] }
serde = { version = "1", features = ["derive", "rc"] }
serde_json = "1"
thiserror = "2"
tokio = { version = "1", features = ["sync", "rt", "macros"] }
tracing = "0.1"
url = "2"
walkdir = "2"
