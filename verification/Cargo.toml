[package]
name = "exam_engine"
version = "0.1.0"
edition = "2021"
publish = false

[dependencies]
rand = "0.9"
mongodb = "*"
bson = "*"
tokio = { version = "*", features = ["full"] }
futures-util = "*"
serde = { version = "*", features = ["derive"] }
serde_json = "*"
serde_with = "*"
chrono = { version = "*", features = ["serde"] }
anyhow = "*"
dotenvy = "*"
tracing = "*"
tracing-subscriber = { version = "*", features = ["env-filter"] }
