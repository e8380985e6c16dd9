[package]
name = "chip8"
version = "0.1.0"
edition = "2021"
publish = false

[dependencies]
bevy = { version = "=0.17.3", default-features = false, features = ["bevy_winit", "bevy_sprite_render", "bevy_state", "x11"] }
