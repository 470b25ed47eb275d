[package]
name = "cf"
version = "0.1.0"
edition = "2021"
publish = false

[dependencies]
base64 = "0.22"
num = "0.4"
regex = "1"
rand = "0.9"
sha2 = "0.10"
hex = "0.4"
serde = { version = "1", features = ["derive"] }
serde_json = "1"
lz-str = "0.2"
