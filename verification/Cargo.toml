[package]
name = "fallbox"
version = "0.1.0"
edition = "2021"
publish = false

[dependencies]
ggez = { version = "0.9", default-features = false }
nalgebra = "0.32"
rapier2d = "0.17"
