[package]
name = "skwd-lens"
version = "0.1.0"
edition = "2021"
publish = false

[dependencies]
anyhow = "=1.0.104"
image = { version = "=0.25.10", default-features = false, features = ["png", "jpeg", "webp"] }
memmap2 = "=0.9.12"
ort = { version = "=2.0.0-rc.12", default-features = false, features = ["api-24", "load-dynamic", "ndarray", "std"] }
sentencepiece-rs = "=0.2.2"
serde = { version = "=1.0.229", features = ["derive"] }
serde_json = "=1.0.154"
sha2 = "=0.10.9"
tokenizers = { version = "=0.23.2", default-features = false, features = ["fancy-regex"] }
tokio = { version = "1", features = ["rt", "io-util", "io-std"] }
