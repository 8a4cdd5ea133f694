[package]
name = "torrent_scraper"
version = "0.1.0"
edition = "2021"
publish = false

[dependencies]
anyhow = "1"
chrono = { version = "0.4", default-features = false, features = ["clock"] }
env_logger = "*"
log = "0.4"
minreq = { version = "2", features = ["https"] }
scraper = "*"
serde = { version = "1", features = ["derive"] }
serde_json = "1"
