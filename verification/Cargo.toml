[package]
name = "fnkey"
version = "0.1.0"
edition = "2021"
publish = false

[dependencies]
serde_json = "1"
reqwest = { version = "0.12", default-features = false, features = ["blocking", "multipart"] }
arboard = "3"
cpal = "0.15"
cocoa = "*"
objc = "*"
core-foundation = "*"
core-graphics = "*"

[dev-dependencies]
hound = "3"
