[package]
name = "jmap"
version = "0.1.0"
edition = "2021"
publish = false

[dependencies]
sieve-rs = { version = "=0.7.3", features = ["serde"] }
bincode = "=1.3.3"
rand = "=0.8.8"
tokio = { version = "=1.54.1", default-features = false, features = ["rt", "sync", "time"] }
hyper = "=1.12.0"
serde_json = "=1.0.154"
memory-stats = "=1.2.0"
tracing = "=0.1.44"
