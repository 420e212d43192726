[package]
name = "evtx"
version = "0.1.0"
edition = "2021"
publish = false

[dependencies]
quick-xml = "0.17"
serde_json = "1"
env_logger = "0.7"
