[package]
name = "vigil_events"
version = "0.1.0"
edition = "2021"
publish = false

[dependencies]
anyhow = "*"
async-trait = "*"
clap = { version = "*", features = ["derive"] }
serde = { version = "*", features = ["derive"] }
serde_json = "*"
thiserror = "*"
tokio = { version = "*", features = ["sync", "rt-multi-thread", "macros"] }
tracing = "*"
tracing-subscriber = "*"
