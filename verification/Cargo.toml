[package]
name = "baras_core"
version = "0.1.0"
edition = "2021"
publish = false

[dependencies]
hashbrown = "*"
encoding_rs = "*"
serde = { version = "1", features = ["derive"] }
serde_json = "1"
dirs = "*"
chrono = "0.4"
