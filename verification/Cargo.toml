[package]
name = "sbus_cppm"
version = "0.1.0"
edition = "2021"
publish = false

[dependencies]
heapless = "*"
embedded-hal = "0.2"
