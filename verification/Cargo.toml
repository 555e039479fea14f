[package]
name = "notion_api"
version = "0.1.0"
edition = "2021"
publish = false

[dependencies]
anyhow = "1"
iter_tools = "*"
parking_lot = "0.12"
reqwest = { version = "0.11", default-features = false, features = ["json", "rustls-tls"] }
serde = { version = "1", features = ["derive"] }
serde_json = "1"
serde_with = "3"
tracing = "0.1"
