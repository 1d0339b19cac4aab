[package]
name = "facet_key_codec"
version = "0.1.0"
edition = "2021"
publish = false

[dependencies]
heed = { version = "0.20", default-features = false }
