[package]
name = "gpuviewer"
version = "0.1.0"
edition = "2021"
publish = false

[dependencies]
nvml-wrapper = { version = "*", features = ["legacy-functions"] }
rusqlite = { version = "*", features = ["bundled"] }
serde = { version = "1", features = ["derive"] }
serde_json = "1"
