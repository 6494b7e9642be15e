[package]
name = "odl"
version = "0.1.0"
edition = "2021"
publish = false

[dependencies]
petgraph = "0.8"
eframe = { version = "*", default-features = false, features = ["wgpu", "persistence", "default_fonts", "x11"] }
egui = "*"
cgmath = "0.18"
bytemuck = { version = "1", features = ["derive"] }
rand = "0.9"
serde = { version = "1", features = ["derive"] }
env_logger = "0.11"
