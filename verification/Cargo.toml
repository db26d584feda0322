[package]
name = "motrix_core"
version = "0.1.0"
edition = "2021"
publish = false

[dependencies]
anyhow = "=1.0.104"
axum = { version = "=0.8.9", default-features = false, features = ["http1", "json", "tokio", "ws"] }
base64 = "=0.22.1"
bytes = "=1.12.1"
clap = { version = "=4.6.7", default-features = false, features = ["std", "derive", "help", "usage", "error-context"] }
dirs = "=6.0.0"
fast-down = { version = "=5.0.2", features = ["fast-puller"] }
Kget = { version = "=1.7.1", default-features = false }
parking_lot = "=0.12.5"
reqwest = { version = "=0.13.5", default-features = false, features = ["blocking", "json"] }
serde = { version = "=1.0.229", features = ["derive"] }
serde_json = "=1.0.154"
thiserror = "=2.0.21"
tokio = { version = "=1.54.1", features = ["rt-multi-thread", "macros", "net", "sync", "time", "signal"] }
tracing = "=0.1.44"
url = "=2.5.8"
