[package]
name = "reco"
version = "0.1.0"
edition = "2021"
publish = false

[dependencies]
ash = "0.38"
bytemuck = { version = "1", features = ["derive"] }
libc = "0.2"
log = "0.4"
nalgebra = "*"
ort = { version = "2.0.0-rc.10", default-features = false, features = ["std", "load-dynamic"] }
serde = { version = "1", features = ["derive"] }
serde_json = "1"
thiserror = "2"
wgpu = { version = "28", default-features = false, features = ["std", "vulkan", "wgsl"] }
