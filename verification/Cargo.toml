[package]
name = "danmaku_renderer"
version = "0.1.0"
edition = "2021"
publish = false

[dependencies]
bytemuck = { version = "1", features = ["derive"] }
cosmic-text = "0.12"
etagere = "0.2"
log = "0.4"
lru = "0.12"
prost = "0.13"
quick-xml = "0.36"
regex = "1"
wgpu = "22"
