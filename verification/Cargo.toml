[package]
name = "bloomset"
version = "0.1.0"
edition = "2021"
publish = false

[dependencies]
fasthash = "0.4"

[dev-dependencies]
rand = "0.8"
