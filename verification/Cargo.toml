[package]
name = "rrr"
version = "0.1.0"
edition = "2021"
publish = false

[dependencies]
redis = "0.23"
