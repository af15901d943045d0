[package]
name = "xxhash_rust"
version = "0.1.0"
edition = "2021"
publish = false

[dev-dependencies]
twox-hash = "*"
getrandom = "0.2"
