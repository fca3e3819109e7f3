[package]
name = "embedded-fps"
version = "0.1.0"
edition = "2021"
publish = false

[dependencies]
embedded-time = "0.12"
heapless = { version = "0.7", default-features = false }
