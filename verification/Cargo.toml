[package]
name = "softbuffer_rgb"
version = "0.1.0"
edition = "2021"
publish = false

[dependencies]
softbuffer = "*"
raw-window-handle = "*"
thiserror = "*"
