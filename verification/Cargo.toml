[package]
name = "voxel_world"
version = "0.1.0"
edition = "2021"
publish = false

[dependencies]
itertools = "0.11"
chrono = { version = "0.4", default-features = false, features = ["std"] }
nalgebra-glm = "0.18"
egui = "0.22"
winit = "0.28"
wgpu = "0.17"
