[package]
name = "bilrost"
version = "0.1.0"
edition = "2021"
publish = false

[dependencies]
bytes = "1"
thin-vec = "0.2"
