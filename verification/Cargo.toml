[package]
name = "renderer"
version = "0.1.0"
edition = "2021"
publish = false

[dependencies]
image = { version = "=0.25.10", default-features = false, features = ["bmp", "dds", "ff", "gif", "hdr", "ico", "jpeg", "png", "pnm", "qoi", "tga", "tiff", "webp"] }
wgpu = "=30.0.1"
gltf = "=1.4.1"
fontdue = "=0.9.5"
