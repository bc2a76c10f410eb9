[package]
name = "patrick_db"
version = "0.1.0"
edition = "2021"
publish = false

[dependencies]
bincode = "1.3"
dashmap = "5"
serde = { version = "1", features = ["derive"] }
tokio = { version = "1", features = ["full"] }
anyhow = "1"
log = "0.4"
env_logger = "0.10"
clap = { version = "4", features = ["derive"] }
raft = "0.7"
protobuf = "2"
bytes = "1"
slog = "2"
slog-async = "2"
slog-term = "2"
actix-web = "4"
httparse = "1"
serde_json = "1"
rand = "0.8"
lazy_static = "1"
