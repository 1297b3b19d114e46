[package]
name = "mfcc_profile"
version = "0.1.0"
edition = "2021"
publish = false

[dependencies]
rustfft = "*"
serde = { version = "*", features = ["derive"] }
serde_json = "*"
