[package]
name = "netprobe"
version = "0.1.0"
edition = "2021"
publish = false

[dependencies]
pnet = "0.34"
rand = "0.8"
toml = "0.8"
ipnet = "2"
clap = { version = "4", features = ["derive"] }
colored = "2"
indicatif = "0.17"
