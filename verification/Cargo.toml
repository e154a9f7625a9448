[package]
name = "echoxide"
version = "0.1.0"
edition = "2021"
publish = false

[dependencies]
hmac = "=0.12.1"
sha2 = "=0.10.9"
rand = "=0.8.8"
serde = { version = "=1.0.229", features = ["derive"] }
serde_json = "=1.0.151"
tokio = { version = "=1.53.2", features = ["rt-multi-thread", "macros", "signal", "net", "time", "sync"] }
axum = { version = "=0.8.9", features = ["ws"] }
sysinfo = "=0.39.6"
