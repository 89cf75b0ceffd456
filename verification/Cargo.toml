[package]
name = "cni_plugins"
version = "0.1.0"
edition = "2021"
publish = false

[dependencies]
base64 = "*"
ipnetwork = "*"
jq-rs = "*"
serde = { version = "*", features = ["derive"] }
serde_json = "*"
surf = { version = "*", default-features = false, features = ["h1-client-rustls"] }
async-std = "*"
futures = "*"
url = "*"
rtnetlink = "*"
which = "*"
