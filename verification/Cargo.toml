[package]
name = "flappy"
version = "0.1.0"
edition = "2021"
publish = false

[dependencies]
bevy = { version = "0.10.1", default-features = false, features = ["bevy_asset", "bevy_core_pipeline", "bevy_render", "bevy_sprite", "bevy_winit", "png", "x11"] }
rand = "0.8.5"
