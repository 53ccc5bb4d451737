[package]
name = "deltaruntime"
version = "0.1.0"
edition = "2021"
publish = false

[dependencies]
blake3 = "*"
serde = { version = "*", features = ["derive"] }
serde_json = "*"
chrono = "*"
notify = "*"
rayon = "*"
uuid = { version = "*", features = ["v4"] }
anyhow = "*"
dirs = "*"
