[package]
name = "video_bard"
version = "0.1.0"
edition = "2021"
publish = false

[dependencies]
image = { version = "0.25", default-features = false, features = ["png", "bmp"] }
nalgebra = "0.33"
same-file = "1"
wgpu = "25"
bytemuck = { version = "1", features = ["derive"] }
tracing = "0.1"
log = "0.4"
env_logger = "0.11"
