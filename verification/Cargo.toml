[package]
name = "vibe_automation"
version = "0.1.0"
edition = "2021"
publish = false

[dependencies]
axum = "0.8"
dirs = "5"
reqwest = { version = "0.12", default-features = false, features = ["json"] }
serde = { version = "1", features = ["derive"] }
serde_json = "1"
tokio = { version = "1", features = ["rt", "time"] }
toml = "0.8"
tracing = "0.1"
uuid = { version = "1", features = ["serde"] }
