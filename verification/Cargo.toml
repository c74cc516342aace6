[package]
name = "matchmaker"
version = "0.1.0"
edition = "2021"
publish = false

[dependencies]
uuid = { version = "1", features = ["v4", "serde"] }
chrono = "0.4"
subtle = "2"
serde = { version = "1", features = ["derive"] }
serde_json = "1"
smallvec = { version = "1", features = ["serde"] }
anyhow = "1"
axum = "0.8"
bb8 = "*"
bb8-redis = "*"
redis = { version = "*", features = ["tokio-comp"] }
reqwest = { version = "0.12", default-features = false, features = ["json"] }
tokio = { version = "1", features = ["full"] }
dashmap = "6"
governor = "0.8"
tracing = "0.1"
tracing-subscriber = "0.3"
