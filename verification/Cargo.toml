[package]
name = "trafficmon"
version = "0.1.0"
edition = "2021"
publish = false

[dependencies]
ctrlc = "3"
pcap = "*"
serde = { version = "1", features = ["derive"] }
toml = "*"
