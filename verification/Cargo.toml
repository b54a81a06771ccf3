[package]
name = "svnguitool"
version = "0.1.0"
edition = "2021"
publish = false

[dependencies]
chrono = "0.4"
quick-xml = "0.37"
log = "0.4"
