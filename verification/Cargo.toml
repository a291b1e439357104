[package]
name = "digest"
version = "0.1.0"
edition = "2021"
publish = false

[dev-dependencies]
block-buffer = "=0.9.0"
generic-array = "=0.14.9"
