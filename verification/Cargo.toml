[package]
name = "iron_voxel"
version = "0.1.0"
edition = "2021"
publish = false

[dependencies]
array-bytes = "=6.2.3"
bincode = "=1.3.3"
serde = { version = "=1.0.229", features = ["derive"] }
toml = "=0.8.23"
glam = "=0.24.2"
