[package]
name = "esp_bundle"
version = "0.1.0"
edition = "2021"
publish = false

[dependencies]
anyhow = "1"
esp-idf-part = "0.5"
espflash = { version = "3", default-features = false }
log = "0.4"
serde = { version = "1", features = ["derive"] }
toml = "0.8"
zip = { version = "2", default-features = false, features = ["deflate"] }
