[package]
name = "mindscribe"
version = "0.1.0"
edition = "2021"
publish = false

[dependencies]
base64 = "0.22"
candle-core = "*"
candle-nn = "*"
candle-transformers = "*"
chrono = { version = "0.4", features = ["serde"] }
env_logger = "0.11"
futures = "0.3"
hex = "0.4"
log = "0.4"
rand = "0.8"
regex = "1"
reqwest = { version = "0.12", default-features = false, features = ["json", "stream"] }
rusqlite = { version = "*", features = ["bundled"] }
serde = { version = "1", features = ["derive"] }
serde_json = "1"
sqlite-vec = "*"
tokenizers = "*"
tokio = { version = "1", features = ["rt", "sync"] }
uuid = { version = "1", features = ["v4"] }
