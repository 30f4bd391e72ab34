[package]
name = "maschine_mk1"
version = "0.1.0"
edition = "2021"
publish = false

[dependencies]
anyhow = "1"
esp-idf-svc = "*"
log = "0.4"
rusb = "0.9"
serde = { version = "1", features = ["derive"] }
serde_json = "1"
