[package]
name = "server_poller"
version = "0.1.0"
edition = "2021"
publish = false

[dependencies]
base64 = "=0.22.1"
chrono = "=0.4.45"
craftping = { version = "=0.6.0", features = ["async-tokio"] }
dotenvy = "=0.15.7"
prometheus = "=0.13.4"
rand = "=0.8.8"
redis = { version = "=0.27.6", features = ["tokio-comp"] }
reqwest = { version = "=0.12.28", default-features = false, features = ["json"] }
serde = { version = "=1.0.229", features = ["derive"] }
serde_json = "=1.0.154"
sha2 = "=0.10.9"
tokio = { version = "=1.54.1", features = ["rt-multi-thread", "macros", "net", "time", "sync", "fs", "io-util"] }
tracing = "=0.1.44"
