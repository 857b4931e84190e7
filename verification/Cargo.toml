[package]
name = "libintent"
version = "0.1.0"
edition = "2021"
publish = false

[dependencies]
futures = "0.3"
percent-encoding = "2"
reqwest = { version = "0.12", default-features = false, features = ["rustls-tls"] }
scraper = "*"
serde = { version = "1", features = ["derive"] }
serde_json = "1"
tokio = { version = "1", features = ["rt-multi-thread"] }
