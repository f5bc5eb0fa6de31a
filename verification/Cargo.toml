[package]
name = "geodns"
version = "0.1.0"
edition = "2021"
publish = false

[dependencies]
dashmap = "=6.2.1"
maxminddb = "=0.26.0"
serde = { version = "=1.0.229", features = ["derive"] }
tokio = { version = "=1.54.1", features = ["io-util", "macros", "net", "rt-multi-thread", "sync", "time"] }
trust-dns-proto = { version = "=0.23.2", default-features = false, features = ["dnssec"] }
