[package]
name = "uvea"
version = "0.1.0"
edition = "2021"
publish = false

[dependencies]
arrayvec = "=0.7.8"
bitflags = "=2.13.2"
bytemuck = { version = "=1.25.2", features = ["derive"] }
fontdue = "=0.9.5"
rustybuzz = "=0.20.1"
unicode-bidi = "=0.3.18"
wgpu = "=29.0.4"
winit = "=0.30.13"
