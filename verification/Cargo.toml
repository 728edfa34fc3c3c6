[package]
name = "bevy_include_assets"
version = "0.1.0"
edition = "2021"
publish = false

[dependencies]
bevy = { version = "0.8", default-features = false, features = ["render", "bevy_winit", "png", "x11"] }
bevy_rapier2d = { version = "0.18", default-features = false, features = ["dim2"] }
bevy_rapier3d = { version = "0.18", default-features = false, features = ["dim3"] }
rand = "0.8"
wasm-bindgen = "0.2"
