[package]
name = "midi_patch_config"
version = "0.1.0"
edition = "2021"
publish = false

[dependencies]
anyhow = "1"
fundsp = "*"
inventory = "*"
serde = { version = "1", features = ["derive"] }
toml = "*"
