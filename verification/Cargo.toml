[package]
name = "storage_bridge"
version = "0.1.0"
edition = "2021"
publish = false

[dependencies]
opendal = { version = "=0.45.1", default-features = false, features = ["services-memory", "services-fs", "layers-blocking"] }
tokio = { version = "=1.53.2", features = ["full"] }
serde = { version = "=1.0.229", features = ["derive"] }
toml = "=1.1.7"
url-parse = "=1.0.10"
once_cell = "=1.21.4"
wasmedge-sdk = "=0.14.0"
