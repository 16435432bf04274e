[package]
name = "ai_strategist"
version = "0.1.0"
edition = "2021"
publish = false

[dependencies]
toml = "0.8"
sha2 = "0.10"
serde = { version = "1", features = ["derive"] }
serde_json = "1"
dirs = "5"
chrono = "0.4"
uuid = { version = "1", features = ["v4"] }
hostname = "0.4"
reqwest = { version = "0.12", default-features = false, features = ["blocking", "json", "rustls-tls"] }
rusqlite = { version = "0.31", features = ["bundled"] }
