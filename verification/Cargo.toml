[package]
name = "marumaru"
version = "0.1.0"
edition = "2021"
publish = false

[dependencies]
rustfft = "*"
pitch-detection = "*"
