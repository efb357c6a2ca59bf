[package]
name = "lock_timeline"
version = "0.1.0"
edition = "2021"
publish = false

[dependencies]
chrono = "0.4"
clap = { version = "4", features = ["derive"] }
color-eyre = "0.6"
git2 = "*"
serde = { version = "1", features = ["derive"] }
serde_json = "1"
toml = "*"
