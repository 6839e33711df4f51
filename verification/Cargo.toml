[package]
name = "steganographyrs"
version = "0.1.0"
edition = "2021"
publish = false

[dependencies]
image = { version = "0.24", default-features = false, features = ["png"] }
magic-crypt = "3.1"
clap = { version = "4", features = ["derive"] }
atty = "0.2"
