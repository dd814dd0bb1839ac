[package]
name = "fire_ssr"
version = "0.1.0"
edition = "2021"
publish = false

[dependencies]
fire-http = "0.3"
flume = "=0.11.1"
reqwest = { version = "=0.11.27", default-features = false }
serde = { version = "=1.0.229", features = ["derive"] }
serde_json = "=1.0.154"
tokio = { version = "=1.54.1", features = ["sync", "rt", "rt-multi-thread", "time", "macros", "fs"] }
tracing = "0.1"
