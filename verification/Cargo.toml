[package]
name = "crustgraver"
version = "0.1.0"
edition = "2021"
publish = false

[dependencies]
image = { version = "0.24", default-features = false, features = ["png", "jpeg", "gif", "bmp", "tiff", "webp"] }
anyhow = "1"
log = "0.4"
env_logger = "0.10"
parking_lot = "0.12"
serialport = "4"
