[package]
name = "claude_sse"
version = "0.1.0"
edition = "2021"
publish = false

[dependencies]
async-stream = "=0.3.6"
bytes = "=1.12.1"
chrono = { version = "=0.4.45", default-features = false, features = ["clock"] }
futures = "=0.3.34"
serde_json = "=1.0.154"
tokio = { version = "=1.54.1", features = ["time"] }
tracing = "=0.1.44"
