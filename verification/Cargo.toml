[package]
name = "daemon_framework"
version = "0.1.0"
edition = "2021"
publish = false

[dependencies]
anyhow = "1"
futures = "0.3"
fuzzy-matcher = "0.3"
rustix = { version = "1", features = ["fs", "time"] }
serde = { version = "1", features = ["derive"] }
serde_json = "1"
strsim = "0.11"
tokio = { version = "1", features = ["rt-multi-thread", "macros", "sync", "time", "io-util", "io-std"] }
tracing = "0.1"
unicode-normalization = "0.1"
zbus = { version = "5", default-features = false, features = ["tokio"] }
