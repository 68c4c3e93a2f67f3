[package]
name = "bindle-store"
version = "0.1.0"
edition = "2021"
publish = false

[dependencies]
anyhow = "1"
async-trait = "0.1"
bytes = "1"
futures = "0.3"
log = "0.4"
lru = { version = "0.6", default-features = false }
serde = { version = "1", features = ["derive"] }
sha2 = "0.9"
tokio = { version = "1", features = ["fs", "io-util", "sync"] }
tokio-stream = "0.1"
tokio-util = { version = "0.6", features = ["codec", "io"] }
toml = "0.5"
