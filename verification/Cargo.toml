[package]
name = "rage_render"
version = "0.1.0"
edition = "2021"
publish = false

[dependencies]
anyhow = "1"
image = { version = "0.25", default-features = false, features = ["png"] }
rage-formats = "*"
