[package]
name = "fxdata"
version = "0.1.0"
edition = "2021"
publish = false

[dependencies]
rusqlite = { version = "*", features = ["bundled"] }
blake3 = "*"
chrono = "*"
serde = { version = "*", features = ["derive"] }
serde_json = "*"
