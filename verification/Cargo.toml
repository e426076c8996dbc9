[package]
name = "app-store-scraper"
version = "0.1.0"
edition = "2021"
publish = false

[dependencies]
backoff = "0.1"
chrono = "0.4"
clap = "2"
env_logger = "0.6"
hyper = "0.12"
lazy_static = "1"
log = "0.4"
prometheus = "0.7"
reqwest = { version = "0.9", default-features = false, features = ["rustls-tls"] }
rusqlite = "0.20"
serde = "1"
serde_derive = "1"
serde_json = "1"
xmltree = "0.9"
