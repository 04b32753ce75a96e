[package]
name = "malx"
version = "0.1.0"
edition = "2021"
publish = false

[dependencies]
bytemuck = { version = "1", features = ["derive"] }
glam = "*"
wgpu = "*"
winit = "0.30"
pollster = "*"
env_logger = "*"
gltf = "1"
