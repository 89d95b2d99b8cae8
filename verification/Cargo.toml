[package]
name = "openim"
version = "0.1.0"
edition = "2021"
publish = false

[dependencies]
serde = { version = "1", features = ["derive"] }
serde_json = "1"
url = "2"
flate2 = "1"
base64 = "0.22"
prost = "0.13"
anyhow = "1"
thiserror = "2"
tokio = { version = "1", features = ["rt", "net", "time", "sync", "macros"] }
tokio-tungstenite = "*"
futures-util = "0.3"
rusqlite = { version = "*", features = ["bundled"] }
