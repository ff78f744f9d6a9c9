[package]
name = "collection"
version = "0.1.0"
edition = "2021"
publish = false

[dependencies]
futures = "0.3"
itertools = "0.12"
tokio = { version = "1", default-features = false, features = ["sync"] }
validator = "0.16"
