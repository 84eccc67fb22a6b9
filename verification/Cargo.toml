[package]
name = "rsdrop"
version = "0.1.0"
edition = "2021"
publish = false

[dependencies]
md-5 = "0.10"
rsa = "0.9"
rand = "0.8"
base64ct = "1"
tokio = { version = "1", features = ["full"] }
pnet = "*"

[dev-dependencies]
serde_json = "1"
