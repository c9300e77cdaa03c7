[package]
name = "citadelle"
version = "0.1.0"
edition = "2021"
publish = false

[dependencies]
urlencoding = "*"
uuid = { version = "*", features = ["v4"] }
serde = { version = "*", features = ["derive"] }
serde_json = "*"
dirs = "*"
rusqlite = { version = "*", features = ["bundled"] }
