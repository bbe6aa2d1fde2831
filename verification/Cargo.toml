[package]
name = "eventsdb"
version = "0.5.0"
edition = "2021"
publish = false

[dependencies]
async-stream = "=0.3.6"
async-trait = "=0.1.92"
futures-core = "=0.3.34"
rusqlite = { version = "=0.40.2", features = ["bundled", "hooks", "backup"] }
rusqlite-isle = { version = "=0.6.0", features = ["tokio"] }
serde_json = "=1.0.154"
thiserror = "=2.0.21"
tokio = { version = "=1.54.1", features = ["rt", "sync", "time", "macros"] }
tracing = "=0.1.44"
