[package]
name = "hole_punch"
version = "0.1.0"
edition = "2021"
publish = false

[dependencies]
hmac = "*"
rand = "*"
sha2 = "*"
