[package]
name = "netfyr_state"
version = "0.1.0"
edition = "2021"
publish = false

[dependencies]
indexmap = "2"
serde_yaml = "0.9"
uuid = { version = "1", features = ["v7"] }
