[package]
name = "blind_image_steganography"
version = "0.1.0"
edition = "2021"
publish = false

[dependencies]
rand = "0.8"
webp = "*"
image = { version = "*", default-features = false, features = ["png", "jpeg", "webp"] }
clap = { version = "4", features = ["derive"] }
thiserror = "1"
