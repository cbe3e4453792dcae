[package]
name = "bexa_ui"
version = "0.1.0"
edition = "2021"
publish = false

[dependencies]
arboard = "3"
bytemuck = { version = "1", features = ["derive"] }
pollster = "0.4"
portable-pty = "0.9"
taffy = "0.4"
vte = "0.15"
winit = "0.29"
