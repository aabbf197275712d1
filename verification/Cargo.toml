[package]
name = "forcefield_gpu"
version = "0.1.0"
edition = "2021"
publish = false

[dependencies]
bytemuck = { version = "1", features = ["derive", "extern_crate_alloc"] }
forcefield = "*"
pollster = "*"
thiserror = "2"
wgpu = "*"
