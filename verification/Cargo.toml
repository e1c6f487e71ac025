[package]
name = "zarf-injector"
version = "0.1.0"
edition = "2021"
publish = false

[dependencies]
axum = { version = "=0.7.9", default-features = false, features = ["http1", "tokio"] }
flate2 = "=1.1.10"
hex = "=0.4.3"
regex-lite = "=0.1.9"
serde_json = "=1.0.154"
sha2 = "=0.10.9"
tar = "=0.4.46"
tokio = { version = "=1.54.1", features = ["fs", "io-util", "macros", "net", "rt"] }
tokio-util = { version = "=0.7.20", features = ["io"] }
