[package]
name = "hanoi_towers"
version = "0.1.0"
edition = "2021"
publish = false

[dependencies]
gfx = "0.18"
gfx_device_gl = "0.16"
gfx_window_glutin = "0.31"
glutin = "0.21"
