[package]
name = "agent_runtime"
version = "0.1.0"
edition = "2021"
publish = false

[dependencies]
serde = { version = "*", features = ["derive"] }
serde_json = "*"
tokio = { version = "*", features = ["rt-multi-thread", "macros", "sync", "time"] }
chrono = "*"
log = "*"
env_logger = "*"
async-nats = "*"
futures = "*"
bytes = "*"
thiserror = "*"
