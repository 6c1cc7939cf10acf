[package]
name = "pathtracer"
version = "0.1.0"
edition = "2021"
publish = false

[dependencies]
anyhow = "*"
glam = "*"
image = "*"
obj-rs = "*"
