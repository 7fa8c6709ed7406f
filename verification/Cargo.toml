[package]
name = "downloader"
version = "0.1.0"
edition = "2021"
publish = false

[dependencies]
sha2 = "0.10"
reqwest = { version = "0.12", default-features = false, features = ["stream", "rustls-tls"] }
tokio = { version = "1", features = ["full"] }
futures = "0.3"
async-trait = "0.1"
clap = { version = "4", features = ["derive"] }
tracing = "0.1"
tracing-subscriber = "0.3"
