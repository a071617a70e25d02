[package]
name = "dl_media"
version = "0.2.1"
edition = "2021"
publish = false

[dependencies]
anyhow = "=1.0.104"
chrono = "=0.4.45"
clap = { version = "=4.6.7", features = ["derive"] }
clap_complete = "=4.6.11"
dialoguer = "=0.11.0"
dirs = "=5.0.1"
indicatif = "=0.17.11"
inquire = "=0.7.5"
regex = "1"
serde = { version = "=1.0.229", features = ["derive"] }
serde_json = "=1.0.154"
tokio = { version = "=1.54.1", features = ["full"] }
toml = "=0.8.23"
