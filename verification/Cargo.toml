[package]
name = "rustbrowser"
version = "1.2.0"
edition = "2021"
publish = false

[dependencies]
anyhow = "1"
clap = { version = "4", features = ["derive"] }
dirs = "*"
dom_smoothie = "*"
encoding_rs = "0.8"
futures = "0.3"
htmd = "*"
reqwest = { version = "0.12", default-features = false, features = ["rustls-tls", "gzip", "brotli", "deflate", "cookies"] }
rmcp = { version = "*", features = ["server", "transport-io", "macros"] }
scraper = "*"
serde = { version = "1", features = ["derive"] }
serde_json = "1"
sha2 = "0.10"
texting_robots = "0.2"
tiktoken-rs = "*"
tokio = { version = "1", features = ["rt", "rt-multi-thread", "macros", "net", "process", "sync", "time", "io-util", "io-std"] }
tokio-tungstenite = "*"
url = "2"
