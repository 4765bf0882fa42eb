[package]
name = "vela_core"
version = "0.1.0"
edition = "2021"
publish = false

[dependencies]
base64 = "0.22"
url = "2"
quick-xml = "*"
serde = { version = "1", features = ["derive"] }
serde_json = "1"
serde-xml-rs = "*"
uuid = { version = "1", features = ["v4"] }
libc = "0.2"
