[package]
name = "matalu"
version = "0.1.0"
edition = "2021"
publish = false

[dependencies]
anyhow = "1"
arboard = { version = "3", default-features = false }
axum = { version = "0.8", default-features = false, features = ["http1", "tokio", "ws"] }
core-foundation = "0.10"
core-graphics = "0.25"
cpal = "0.18"
crossbeam-channel = "0.5"
hound = "3"
serde = { version = "1", features = ["derive"] }
serde_json = "1"
tokio = { version = "1", features = ["macros", "net", "rt-multi-thread", "signal", "sync", "time"] }
tracing = "0.1"
tracing-subscriber = { version = "0.3", default-features = false, features = ["env-filter", "fmt"] }
