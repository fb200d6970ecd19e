[package]
name = "mini_kv"
version = "0.1.0"
edition = "2021"
publish = false

[dependencies]
flate2 = "*"
tokio = { version = "*", features = ["full"] }
tokio-rustls = "*"
rustls-native-certs = "*"
rustls-pemfile = "*"
tokio-stream = "*"
tokio-util = { version = "*", features = ["compat"] }
toml = "*"
serde = { version = "*", features = ["derive"] }
anyhow = "*"
futures = "*"
tracing = "*"
tracing-subscriber = "*"
yamux = "*"
bytes = "*"
