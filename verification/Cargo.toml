[package]
name = "infiniscouter"
version = "0.1.0"
edition = "2021"
publish = false

[dependencies]
base64 = "=0.21.7"
bincode = "=1.3.3"
color-eyre = "=0.6.5"
futures-util = "=0.3.34"
image = { version = "=0.24.9", default-features = false, features = ["jpeg", "png", "gif", "bmp", "webp"] }
log = "=0.4.34"
poem = { version = "3.1", features = ["compression", "static-files"] }
poem-openapi = { version = "5.1", features = ["swagger-ui"] }
reqwest = { version = "=0.11.27", default-features = false, features = ["json", "rustls-tls"] }
serde = { version = "=1.0.229", features = ["derive"] }
serde_json = "=1.0.154"
serde_yaml = "=0.9.34"
signal-hook = "=0.3.18"
simplelog = "=0.12.2"
sled = "=0.34.7"
thiserror = "=1.0.69"
tokio = { version = "=1.54.1", features = ["macros", "rt-multi-thread", "sync", "time"] }
ts-rs = "=7.1.1"
vader_sentiment = "=0.1.1"
