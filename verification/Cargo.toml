[package]
name = "hyper_sse"
version = "0.1.0"
edition = "2021"
publish = false

[dependencies]
base64 = "0.9"
futures = "0.1"
hyper = "0.12"
lazy_static = "1"
libhydrogen = "*"
serde = "1"
serde_derive = "1"
serde_json = "1"
tokio = "0.1"
