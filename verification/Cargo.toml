[package]
name = "aisix"
version = "0.1.0"
edition = "2021"
publish = false

[dependencies]
serde_json = "1"
serde = { version = "1", features = ["derive"] }
anyhow = "1"
thiserror = "1"
tokio = { version = "1", features = ["full"] }
axum = "0.7"
http = "1"
bytes = "1"
async-trait = "0.1"
arc-swap = "1"
chrono = { version = "0.4", features = ["serde"] }
uuid = { version = "1", features = ["v4"] }
tracing = "0.1"
prometheus = { version = "0.13", default-features = false }
reqwest = { version = "0.12", default-features = false, features = ["json"] }
etcd-client = "0.14"
