[package]
name = "hal9000"
version = "0.1.0"
edition = "2021"
publish = false

[dev-dependencies]
bit_field = "0.10"
