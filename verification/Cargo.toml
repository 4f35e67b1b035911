[package]
name = "zenproxy"
version = "0.1.0"
edition = "2021"
publish = false

[dependencies]
axum = "0.7"
dashmap = "6"
percent-encoding = "2"
rand = "0.8"
reqwest = { version = "0.12", default-features = false, features = ["stream", "rustls-tls"] }
serde = { version = "1", features = ["derive"] }
serde_json = "1"
tracing = "0.1"
