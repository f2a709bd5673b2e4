[package]
name = "hop_responder"
version = "0.1.0"
edition = "2021"
publish = false

[dependencies]
clap = { version = "=3.2.25", features = ["derive"] }
etherparse = "=0.21.0"
ipnet = "=2.12.2"
pnet = "=0.35.0"
tun-tap = { version = "=0.1.4", default-features = false }
