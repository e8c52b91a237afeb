[package]
name = "tct"
version = "0.1.0"
edition = "2021"
publish = false

[dependencies]
thiserror = "1"
poseidon377 = { version = "*", default-features = false }
decaf377 = { version = "*", default-features = false }
