[package]
name = "voxel_engine"
version = "0.1.0"
edition = "2021"
publish = false

[dependencies]
bytemuck = { version = "=1.25.2", features = ["derive"] }
env_logger = "=0.10.2"
glam = "=0.21.3"
image = { version = "=0.24.9", default-features = false, features = ["png"] }
noise = "=0.8.2"
rand = "=0.8.8"
