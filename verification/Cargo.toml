[package]
name = "spider_middleware"
version = "0.1.0"
edition = "2021"
publish = false

[dependencies]
async-trait = "0.1"
bincode = "1.3"
bytes = "1"
cookie = "0.17"
cookie_store = "0.20"
dashmap = "6"
dirs = "*"
governor = "0.6"
http = "1"
log = "0.4"
moka = { version = "0.12", features = ["future", "sync"] }
rand = "0.8"
reqwest = { version = "0.12", default-features = false }
robotstxt = "0.3"
seahash = "4"
serde = { version = "1", features = ["derive"] }
time = "0.3"
tokio = { version = "1", features = ["fs", "sync", "time"] }
tracing = "0.1"
ua_generator = "0.5"
url = "2"
