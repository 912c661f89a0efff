[package]
name = "dice_mosaic"
version = "0.1.0"
edition = "2021"
publish = false

[dependencies]
image = { version = "0.24", default-features = false, features = ["png", "jpeg"] }
crossbeam = "0.8"
uuid = { version = "1", features = ["v4"] }
