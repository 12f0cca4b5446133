[package]
name = "dactor"
version = "0.2.0"
edition = "2021"
publish = false

[dependencies]
dashmap = "6"
serde = { version = "1", features = ["derive"] }
serde_json = "1"
tokio = { version = "1", features = ["time", "rt", "macros"] }
tonic = { version = "0.12", default-features = false }
tracing-subscriber = "0.3"
