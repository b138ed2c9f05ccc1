[package]
name = "voxel_engine"
version = "0.1.0"
edition = "2021"
publish = false

[dependencies]
rustc-hash = "=2.1.3"
lz4_flex = "=0.11.6"
glam = { version = "=0.29.3", features = ["serde", "bytemuck"] }
serde = { version = "1", features = ["derive"] }
bincode = "=1.3.3"
hecs = "=0.10.5"
tracing = "0.1"
tracing-subscriber = { version = "0.3", features = ["env-filter"] }
pollster = "=0.4.0"
bytemuck = { version = "1", features = ["derive"] }
