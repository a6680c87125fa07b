[package]
name = "auracap"
version = "0.1.0"
edition = "2021"
publish = false

[dependencies]
pcap = "*"
serde = { version = "*", features = ["derive"] }
serde_json = "*"
