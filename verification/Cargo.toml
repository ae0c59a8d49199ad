[package]
name = "kryst_wgpu"
version = "0.1.0"
edition = "2021"
publish = false

[dependencies]
wgpu = "*"
futures-channel = "*"
