[package]
name = "freemkv-tools"
version = "0.13.42"
edition = "2021"
publish = false

[dependencies]
serde_json = "1"
