[package]
name = "palette_kmeans"
version = "0.1.0"
edition = "2021"
publish = false

[dependencies]
anyhow = "1"
bytemuck = { version = "1", features = ["derive"] }
image = { version = "0.25", default-features = false, features = ["rayon"] }
rand = "0.9"
rand_distr = "0.5"
rayon = "1"
wgpu = { version = "24", default-features = false, features = ["wgsl"] }
winit = { version = "0.30", default-features = false, features = ["rwh_06", "x11"] }
