[package]
name = "mmo_net"
version = "0.1.0"
edition = "2021"
publish = false

[dependencies]
uuid = { version = "1", features = ["v4"] }
serde = { version = "1", features = ["derive"] }
serde_json = "1"
tokio = { version = "1", features = ["full"] }
axum = "0.7"
redis = { version = "0.25", features = ["tokio-comp"] }
bevy = { version = "0.14", default-features = false }
bytes = "1"
anyhow = "1"
