[package]
name = "depot_pos"
version = "0.1.0"
edition = "2021"
publish = false

[dependencies]
uuid = { version = "1", features = ["v4"] }
chrono = "0.4"
bcrypt = "0.17"
rand = "0.9"
serde = { version = "1", features = ["derive"] }
serde_json = "1"
