[package]
name = "transaction_engine"
version = "0.1.0"
edition = "2021"
publish = false

[dependencies]
dashmap = "*"
tokio = { version = "*", features = ["rt-multi-thread", "macros", "sync", "time"] }
moka = { version = "*", features = ["future"] }
csv = "*"
serde = { version = "*", features = ["derive"] }
anyhow = "*"
tracing = "*"
tracing-subscriber = "*"
