[package]
name = "voxer"
version = "0.1.0"
edition = "2021"
publish = false

[dependencies]
anyhow = "1"
bytemuck = { version = "1", features = ["derive"] }
dot_vox = "*"
egui = "*"
egui-wgpu = "*"
egui-winit = "*"
env_logger = "*"
log = "0.4"
nalgebra = "*"
pollster = "*"
