[package]
name = "pancake"
version = "0.1.0"
edition = "2021"
publish = false

[dependencies]
inlinable_string = { version = "0.1", default-features = false }
