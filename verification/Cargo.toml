[package]
name = "oak_node"
version = "0.1.0"
edition = "2021"
publish = false

[dependencies]
cosmic-text = "*"
log = "*"
wgpu = "*"
