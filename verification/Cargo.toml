[package]
name = "entity_store"
version = "0.1.0"
edition = "2021"
publish = false

[dependencies]
gl = "0.14"
glutin = "0.32"
glutin-winit = "0.5"
skia-safe = { version = "*", features = ["gl"] }
winit = "0.30"
