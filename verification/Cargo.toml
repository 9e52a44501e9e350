[package]
name = "custom_uploader"
version = "0.1.0"
edition = "2021"
publish = false

[dependencies]
base64 = "0.13"
rand = "0.8"
serde = { version = "1", features = ["derive"] }
serde_json = "1"
thiserror = "1"
reqwest = { version = "0.11", default-features = false, features = ["blocking", "multipart"] }
mime_guess = "2"
