[package]
name = "wgpu_calc"
version = "0.1.0"
edition = "2021"
publish = false

[dependencies]
anyhow = "1"
futures-channel = "0.3"
ndarray = "0.15"
thiserror = "1"
wgpu = "0.19"
