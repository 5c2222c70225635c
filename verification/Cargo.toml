[package]
name = "render_rs"
version = "0.1.0"
edition = "2021"
publish = false

[dependencies]
anyhow = "1"
clap = { version = "4", features = ["derive"] }
exr = "1"
image = { version = "0.25", default-features = false, features = ["png", "exr"] }
nom = "7"
rayon = "1"
softbuffer = "0.4"
winit = "0.30"
