[package]
name = "rust_agent"
version = "0.1.0"
edition = "2021"
publish = false

[dependencies]
anyhow = "*"
arrow-flight = "*"
async-trait = "*"
clap = { version = "4", features = ["derive"] }
colored = "*"
dialoguer = "*"
futures = "*"
futures-util = "*"
indicatif = "*"
reqwest = { version = "*", default-features = false, features = ["json", "stream"] }
serde = { version = "*", features = ["derive"] }
serde_json = "*"
tokio = { version = "1", features = ["rt-multi-thread", "macros", "fs", "sync", "io-std", "io-util"] }
tokio-stream = "*"
tonic = "*"
tracing = "*"
tracing-appender = "*"
tracing-subscriber = { version = "*", features = ["env-filter"] }
urlencoding = "*"
