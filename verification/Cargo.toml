[package]
name = "simple_discover"
version = "0.1.0"
edition = "2021"
publish = false

[dependencies]
crc32fast = "1"
serde = { version = "1", features = ["derive"] }
serde_json = "1"
tokio = { version = "1", features = ["full"] }
tokio-util = "0.7"
log = "0.4"
