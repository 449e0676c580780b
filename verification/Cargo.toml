[package]
name = "pois_bridge"
version = "0.1.0"
edition = "2021"
publish = false

[dependencies]
libc = "0.2"
libloading = "0.8"
num-bigint-dig = "0.8"
num-integer = "0.1"
num-traits = "0.2"
rand = "0.8"
rsa = "0.9"
serde = { version = "1", features = ["derive"] }
