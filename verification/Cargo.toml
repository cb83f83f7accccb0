[package]
name = "nu_plugin_sled"
version = "0.1.0"
edition = "2021"
publish = false

[dependencies]
nu-plugin = "=0.114.1"
nu-protocol = "=0.114.1"
rmp-serde = "=1.3.1"
serde_json = { version = "=1.0.154", features = ["preserve_order"] }
sled = "=0.34.7"
