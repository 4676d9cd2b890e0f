[package]
name = "engine3d"
version = "0.1.0"
edition = "2021"
publish = false

[dependencies]
lazy_static = "1"
sdl2 = { version = "*", features = ["gfx"] }
