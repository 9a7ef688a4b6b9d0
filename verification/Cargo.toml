[package]
name = "sismatic"
version = "0.1.0"
edition = "2021"
publish = false

[dependencies]
anyhow = "1"
async-trait = "0.1"
axum = "0.8"
chrono = "0.4"
clap = { version = "4", features = ["derive"] }
config = "*"
dashmap = "6"
humantime = "2"
russh = "*"
serde = { version = "1", features = ["derive"] }
serde_json = "1"
serde-saphyr = "*"
tokio = { version = "1", features = ["full"] }
tokio-util = { version = "0.7", features = ["rt"] }
toml = "*"
tracing = "0.1"
uuid = { version = "1", features = ["v4"] }
