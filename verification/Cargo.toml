[package]
name = "chora"
version = "0.1.0"
edition = "2021"
publish = false

[dependencies]
regex = "=1.13.1"
wgpu = "=26.0.1"
cgmath = "=0.18.0"
image = { version = "=0.25.10", default-features = false, features = ["png", "jpeg"] }
max_rects = "=1.0.2"
pollster = "=0.4.0"
raw-window-handle = "=0.6.2"
rayon = "=1.12.0"
bytemuck = "=1.25.2"
