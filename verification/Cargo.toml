[package]
name = "png_encoder"
version = "0.1.0"
edition = "2021"
publish = false

[dependencies]
crc32fast = "=1.5.3"
deflate = "=0.9.1"
glam = "=0.20.5"
glium = "=0.30.2"
image = { version = "=0.23.14", default-features = false, features = ["png"] }

[dev-dependencies]
miniz_oxide = "=0.3.7"
