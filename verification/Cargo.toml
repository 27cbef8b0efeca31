[package]
name = "arena_shooter"
version = "0.1.0"
edition = "2021"
publish = false

[dependencies]
bevy = { version = "0.7", default-features = false, features = ["render", "bevy_winit", "x11"] }
heron = { version = "3", features = ["2d"] }
