[package]
name = "limen"
version = "0.1.1"
edition = "2021"
publish = false

[dependencies]
serde = { version = "=1.0.229", features = ["derive"] }
serde_json = "=1.0.154"
base64 = "=0.22.1"
global-hotkey = "*"
dirs = "6"
log = "=0.4.35"
cocoa = "=0.26.1"
objc = "=0.2.7"
core-foundation = "=0.10.1"
