[package]
name = "enki"
version = "0.1.0"
edition = "2021"
publish = false

[dependencies]
lru = "=0.19.0"
glam = "=0.34.2"
bytemuck = { version = "=1.25.2", features = ["derive"] }
crossbeam-channel = "=0.5.17"
log = "0.4"
env_logger = "=0.11.11"
image = { version = "=0.25.10", default-features = false, features = ["png"] }
winit = "=0.30.13"
egui = "=0.33.3"
egui-winit = { version = "=0.33.3", default-features = false, features = ["x11"] }
egui-ash-renderer = { version = "=0.11.0", features = ["dynamic-rendering"] }
ash = "=0.38.0"
