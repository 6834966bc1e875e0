[package]
name = "myrust"
version = "0.1.0"
edition = "2021"
publish = false

[dependencies]
mac_address = "=1.2.0"
base64 = "=0.23.1"
serde_json = "=1.0.151"
tracing = "=0.1.44"
tracing-subscriber = { version = "=0.3.23", features = ["env-filter"] }
axum = "*"
tower = "*"
http = "*"
