[package]
name = "auth_framework"
version = "0.1.0"
edition = "2021"
publish = false

[dependencies]
base64 = "0.22"
ring = "0.17"
serde_json = "1"
subtle = "2"
