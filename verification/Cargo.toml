[package]
name = "wux"
version = "0.1.0"
edition = "2021"
publish = false

[dependencies]
anyhow = "1"
colored = "2"
jwalk = "0.8"
serde = { version = "1", features = ["derive"] }
serde_json = "1"
toml = "0.8"
