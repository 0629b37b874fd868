[package]
name = "creature_simulator"
version = "0.1.0"
edition = "2021"
publish = false

[dependencies]
bytemuck = { version = "=1.25.2", features = ["derive"] }
crossbeam = "=0.8.5"
env_logger = "=0.11.11"
glam = "=0.33.12"
pollster = "=1.0.1"
pyo3 = "=0.30.1"
rand = "=0.10.3"
rapier3d = "=0.36.1"
serde = { version = "=1.0.229", features = ["derive"] }
serde_json = "=1.0.154"
wgpu = "=30.0.1"
winit = "=0.30.13"
