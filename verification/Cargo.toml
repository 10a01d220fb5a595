[package]
name = "mega_sena"
version = "0.1.0"
edition = "2021"
publish = false

[dependencies]
anyhow = "1"
chrono = "0.4"
csv = "1"
rand = "0.8"
rusqlite = "0.31"
serde = { version = "1", features = ["derive"] }
sha3 = "0.10"
uuid = { version = "1", features = ["v4"] }
