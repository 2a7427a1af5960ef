[package]
name = "dns_responder"
version = "0.1.0"
edition = "2021"
publish = false

[dependencies]
anyhow = "1"
bytes = "1"
nom = "7"
rand = "0.8"
