[package]
name = "savko"
version = "0.1.0"
edition = "2021"
publish = false

[dependencies]
arboard = { version = "*", default-features = false, features = ["image-data"] }
