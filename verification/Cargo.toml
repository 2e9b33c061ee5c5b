[package]
name = "roboview_core"
version = "0.1.0"
edition = "2021"
publish = false

[dependencies]
bytemuck = "1"
glam = "0.30"
thiserror = "2"
wgpu = "25"
