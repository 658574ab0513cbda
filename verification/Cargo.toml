[package]
name = "prisma"
version = "0.1.0"
edition = "2021"
publish = false

[dependencies]
anyhow = "=1.0.104"
clap = { version = "=4.6.7", features = ["derive"] }
console = "=0.16.6"
divrem = "=1.0.0"
encase = { version = "=0.11.2", features = ["glam"] }
glam = "=0.30.10"
gltf = "=1.4.1"
image = { version = "=0.25.10", default-features = false, features = ["hdr", "jpeg", "png"] }
indicatif = "=0.18.6"
log = "=0.4.34"
parking_lot = "=0.13.0"
pollster = "=1.0.1"
tracing-subscriber = "=0.3.23"
wgpu = "=25.0.2"
winit = { version = "=0.30.13", default-features = false, features = ["rwh_06", "x11"] }
