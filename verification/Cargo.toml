[package]
name = "fileshare_lib"
version = "0.1.0"
edition = "2021"
publish = false

[dependencies]
anyhow = "=1.0.104"
argon2 = "=0.5.3"
axum = { version = "=0.7.9", features = ["ws", "multipart"] }
fs4 = "=1.1.0"
futures-util = "=0.3.34"
image = { version = "=0.25.10", default-features = false, features = ["png"] }
indexmap = { version = "=2.14.2", features = ["serde"] }
jsonwebtoken = "=9.3.1"
local-ip-address = "=0.6.13"
mime_guess = "=2.0.5"
nanoid = "=0.4.0"
parking_lot = "=0.12.5"
rand = "=0.8.8"
rusqlite = { version = "=0.41.1", features = ["bundled"] }
serde = { version = "=1.0.229", features = ["derive"] }
serde_json = "=1.0.154"
tokio = { version = "=1.54.1", features = ["full"] }
tokio-util = { version = "=0.7.20", features = ["io"] }
tower-http = { version = "=0.5.2", features = ["cors"] }
tracing = "=0.1.44"
tracing-subscriber = { version = "=0.3.23", features = ["env-filter"] }
ts-rs = "=12.0.1"
urlencoding = "=2.1.3"
