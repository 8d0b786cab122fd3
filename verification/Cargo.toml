[package]
name = "mimas"
version = "0.1.0"
edition = "2021"
publish = false

[dependencies]
blake3 = { version = "=1.8.7", default-features = false, features = ["pure"] }
indexmap = "=2.14.2"
heck = "0.5"
regex = "1"
rand = "*"
