[package]
name = "tuinix"
version = "0.1.0"
edition = "2021"
publish = false

[dependencies]
libc = "0.2"

[dev-dependencies]
unicode-width = "0.2"
