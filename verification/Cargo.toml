[package]
name = "template_downloader"
version = "1.1.2"
edition = "2021"
publish = false

[dependencies]
regex = "1"
anyhow = "1"
dialoguer = "0.11"
futures = "0.3"
indicatif = "0.17"
reqwest = { version = "0.12", default-features = false, features = ["rustls-tls", "stream"] }
serde = { version = "1", features = ["derive"] }
serde_json = "1"
tempfile = "3"
tokio = { version = "1", features = ["full"] }
