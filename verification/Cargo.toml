[package]
name = "rex"
version = "0.1.0"
edition = "2021"
publish = false

[dependencies]
chrono = "*"
futures = "*"
indicatif = "*"
infer = "*"
lopdf = "*"
notify = "*"
pcap = "*"
regex = "*"
reqwest = { version = "0.12", features = ["json"] }
scraper = "*"
serde = { version = "*", features = ["derive"] }
serde_json = "*"
tokio = { version = "*", features = ["full"] }
trust-dns-resolver = "*"
url = "*"
uuid = { version = "*", features = ["v4"] }
