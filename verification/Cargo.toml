[package]
name = "yamlist"
version = "0.1.0"
edition = "2021"
publish = false

[dependencies]
serde_yaml = "=0.9.34"

[dev-dependencies]
hash40 = { version = "=1.3.1", default-features = false }
