[package]
name = "confval"
version = "0.1.0"
edition = "2021"
publish = false

[dependencies]
ron = "0.8"
