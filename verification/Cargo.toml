[package]
name = "herbie"
version = "0.1.0"
edition = "2021"
publish = false

[dependencies]
chrono = "=0.4.45"
regex = "=1.13.1"
uuid = { version = "=1.29.0", features = ["v4"] }
serde = { version = "=1.0.229", features = ["derive"] }
rusqlite = "=0.41.1"

[dev-dependencies]
serde_json = "=1.0.154"
