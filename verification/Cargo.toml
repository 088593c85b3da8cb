[package]
name = "ccem_core"
version = "0.1.0"
edition = "2021"
publish = false

[dependencies]
aes = "0.8"
cbc = "0.1"
hex = "0.4"
rand = "0.8"
scrypt = "0.11"
serde = { version = "1", features = ["derive"] }
serde_json = "1"
dirs = "*"
chrono = "0.4"
