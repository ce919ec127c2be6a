[package]
name = "grafbabe"
version = "0.1.0"
edition = "2021"
publish = false

[dependencies]
http = "1"
httparse = "1"
xxhash-rust = { version = "0.8", features = ["xxh3"] }
prometheus-scraper = "*"
rusqlite = { version = "*", features = ["bundled", "array"] }
serde = { version = "1", features = ["derive"] }
serde_json = "1"
ureq = "3"
mio = { version = "1", features = ["os-poll", "net"] }
log = { version = "0.4", features = ["kv"] }
env_logger = { version = "0.11", features = ["kv"] }
