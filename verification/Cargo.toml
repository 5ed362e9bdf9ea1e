[package]
name = "batcher"
version = "0.1.0"
edition = "2021"
publish = false

[dependencies]
rand = "=0.8.8"
regex = "=1.13.1"
url = "=2.5.8"
tokio = { version = "=1.54.1", features = ["full"] }
reqwest = "=0.11.27"
futures = "=0.3.34"
indicatif = "=0.17.11"
sqlite = "=0.37.4"
rspotify = "0.12"
serde = { version = "=1.0.229", features = ["derive"] }
serde_json = "=1.0.154"
chrono = "0.4"
dialoguer = "=0.10.4"
console = "=0.15.11"
