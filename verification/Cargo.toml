[package]
name = "generalization"
version = "0.1.0"
edition = "2021"
publish = false

[dependencies]
ahash = "0.7"
rangemap = "1"
