[package]
name = "mproxy"
version = "0.1.0"
edition = "2021"
publish = false

[dependencies]
lru-cache = "0.1"
tokio = { version = "*", features = ["full"] }
tokio-io-timeout = "*"
futures = "*"
chrono = "*"
serde = { version = "*", features = ["derive"] }
serde_derive = "*"
toml = "*"
config = "*"
socket2 = "*"
