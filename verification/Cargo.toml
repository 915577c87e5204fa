[package]
name = "rustdesk"
version = "0.1.0"
edition = "2021"
publish = false

[dependencies]
lazy_static = "1"
rdev = "0.5"
serde_json = "1"
