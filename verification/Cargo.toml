[package]
name = "synapse"
version = "0.1.0"
edition = "2021"
publish = false

[dependencies]
async-trait = "0.1"
axum = { version = "0.6", features = ["ws"] }
axum-core = "0.3"
base64 = "0.21"
bincode = "1"
bytes = "1"
env_logger = "0.10"
futures = "0.3"
futures-util = "0.3"
http = "0.2"
hyper = { version = "0.14", features = ["full"] }
lazy_static = "1"
log = "0.4"
prometheus = "0.13"
reqwest = { version = "0.11", default-features = false, features = ["json", "rustls-tls"] }
rocksdb = "0.21"
serde = { version = "1", features = ["derive"] }
serde_json = "1"
sha1 = "0.10"
tokio = { version = "1", features = ["full"] }
tokio-stream = "0.1"
tokio-tungstenite = "0.19"
tungstenite = "0.19"
uuid = { version = "1", features = ["v4"] }
