[package]
name = "mos"
version = "0.1.0"
edition = "2021"
publish = false

[dependencies]
heapless = "0.8"
critical-section = { version = "1", features = ["std"] }
embedded-graphics = "0.8"
embedded-graphics-framebuf = "0.5"
bitmap-font = "0.3"
