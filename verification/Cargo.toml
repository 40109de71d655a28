[package]
name = "dma_bot"
version = "0.1.0"
edition = "2021"
publish = false

[dependencies]
ahash = "*"
chrono = "*"
dotenvy = "*"
futures-util = "*"
hex = "*"
hmac = "*"
once_cell = "*"
prometheus = "*"
rand = "*"
reqwest = { version = "*", default-features = false, features = ["rustls-tls"] }
serde = { version = "*", features = ["derive"] }
serde_json = "*"
sha2 = "*"
thiserror = "*"
tokio = { version = "*", features = ["full"] }
tokio-tungstenite = "*"
tracing = "*"
tracing-subscriber = { version = "*", features = ["env-filter"] }
url = "*"
urlencoding = "*"
