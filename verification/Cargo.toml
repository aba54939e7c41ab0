[package]
name = "iconnect"
version = "0.1.0"
edition = "2021"
publish = false

[dependencies]
axum = { version = "=0.8.9", features = ["multipart"] }
dirs = "=7.0.0"
futures-util = "=0.3.34"
local-ip-address = "=0.6.13"
percent-encoding = "=2.3.2"
qrcode = { version = "=0.14.1", default-features = false, features = ["svg"] }
serde = { version = "=1.0.229", features = ["derive"] }
serde_json = "=1.0.154"
tauri = { version = "2", default-features = false }
tokio = { version = "=1.54.1", features = ["fs", "io-util", "macros", "net", "rt-multi-thread", "sync"] }
tokio-util = { version = "=0.7.20", features = ["io"] }
