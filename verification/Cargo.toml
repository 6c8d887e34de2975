[package]
name = "simple_chat"
version = "0.1.0"
edition = "2021"
publish = false

[dependencies]
serde = { version = "1", features = ["derive"] }
serde_json = "1"
dashmap = "6"
tokio = { version = "1", features = ["full"] }
tokio-util = "0.7"
tracing = "0.1"
clap = { version = "4", features = ["derive", "env"] }
anyhow = "1"
