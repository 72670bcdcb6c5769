[package]
name = "cryimg"
version = "0.1.0"
edition = "2021"
publish = false

[dependencies]
aes = "0.7"
base64 = "0.22"
block-modes = "0.8"
clap = { version = "4", features = ["derive"] }
image = { version = "0.25", default-features = false, features = ["png"] }
rand = "0.9"
rand_chacha = "0.9"
sha2 = "0.10"
