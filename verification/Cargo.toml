[package]
name = "rater_core"
version = "0.1.0"
edition = "2021"
publish = false

[dependencies]
glicko2 = "*"
rusqlite = "*"
serde = { version = "*", features = ["derive"] }
serde_json = "*"

[dev-dependencies]
chrono = "*"
