[package]
name = "federation_composition"
version = "0.1.0"
edition = "2021"
publish = false

[dependencies]
ahash = "0.8"
apollo-compiler = "1"
indexmap = "2"
