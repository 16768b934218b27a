[package]
name = "loadout"
version = "0.2.0"
edition = "2021"
publish = false

[dependencies]
regex = "1"
semver = "1"
serde = { version = "1", features = ["derive"] }
serde_json = "1"
serde_yaml = "0.9"
