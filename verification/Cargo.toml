[package]
name = "proximadb"
version = "0.1.0"
edition = "2021"
publish = false

[dependencies]
anyhow = "1"
axum = "0.8"
base64 = "0.22"
chrono = "0.4"
dashmap = "6"
hex = "0.4"
object_store = { version = "0.12", default-features = false }
parking_lot = "0.12"
prometheus = { version = "0.14", default-features = false }
rand = "0.8"
regex = "1"
ring = "0.17"
serde = { version = "1", features = ["derive"] }
serde_json = "1"
serde_urlencoded = "0.7"
sha2 = "0.10"
sqlparser = { version = "0.59", features = ["visitor"] }
tokio = { version = "1", features = ["sync"] }
tracing = "0.1"
