[package]
name = "sparse_strips"
version = "0.1.0"
edition = "2021"
publish = false

[dependencies]
bytemuck = { version = "1", features = ["derive"] }
fearless_simd = "*"
peniko = "0.4"
skrifa = "*"
wgpu = "24"
