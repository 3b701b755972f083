[package]
name = "rasterization"
version = "0.1.0"
edition = "2021"
publish = false

[dependencies]
anyhow = "*"
bytemuck = "*"
crevice = "*"
env_logger = "*"
futures = "*"
glam = "*"
gltf = "*"
mint = "*"
serde = { version = "*", features = ["derive"] }
serde_json = "*"
wgpu = "*"
winit = "*"
