[package]
name = "browser_core"
version = "0.1.0"
edition = "2021"
publish = false

[dependencies]
fnv = "=1.0.7"
smallvec = "=1.16.4"
html5ever = "=0.39.0"
markup5ever_rcdom = "=0.39.0"
log = "=0.4.34"
env_logger = "=0.11.11"
thiserror = "=1.0.69"
url = "=2.5.8"
reqwest = { version = "=0.12.28", features = ["gzip", "brotli"] }
wgpu = "=23.0.1"
winit = "=0.30.13"
bytemuck = { version = "=1.25.2", features = ["derive"] }
pollster = "=0.3.0"
parking_lot = "=0.12.5"
