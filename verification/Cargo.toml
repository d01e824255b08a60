[package]
name = "dl_voice"
version = "0.1.0"
edition = "2021"
publish = false

[dependencies]
sha2 = "0.10"
serde_json = "1"
chrono = { version = "0.4", default-features = false, features = ["clock", "std"] }
