[package]
name = "apex_api"
version = "0.1.0"
edition = "2021"
publish = false

[dependencies]
async-channel = "2"
notify = "*"
rusqlite = { version = "*", features = ["bundled"] }
serde_json = "1"
