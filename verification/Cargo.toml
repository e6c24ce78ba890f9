[package]
name = "nanotracer"
version = "0.1.0"
edition = "2021"
publish = false

[dependencies]
ash = "=0.38.0"
bytemuck = { version = "=1.25.2", features = ["derive", "extern_crate_alloc"] }
egui = "0.34"
egui_dock = "0.19"
egui_plot = "0.35"
egui-wgpu = "0.34"
egui-winit = "0.34"
exr = "=1.74.2"
glam = { version = "=0.34.2", features = ["bytemuck"] }
gltf = "=1.4.1"
indicatif = "=0.18.6"
pollster = "=1.0.1"
shaderc = "=0.10.1"
wgpu = "29"
winit = "=0.30.13"
