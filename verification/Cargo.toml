[package]
name = "roundup"
version = "0.1.0"
edition = "2021"
publish = false

[dependencies]
axum = "=0.7.9"
axum-extra = { version = "=0.9.6", features = ["form"] }
chrono = "=0.4.45"
clap = { version = "=4.6.7", features = ["derive"] }
http = "=1.5.0"
hyper = { version = "=1.12.0", features = ["full"] }
hyper-util = { version = "=0.1.21", features = ["full"] }
listenfd = "=1.0.2"
markdown = "=1.0.0"
maud = { version = "=0.26.0", features = ["axum"] }
rusqlite = "=0.32.1"
thiserror = "=1.0.69"
tokio = { version = "=1.54.1", features = ["full"] }
tower = { version = "=0.5.3", features = ["util"] }
tracing = "=0.1.44"
tracing-subscriber = "=0.3.23"

[dev-dependencies]
regex-lite = "0.1"
