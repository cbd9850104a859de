[package]
name = "tile_game"
version = "0.1.0"
edition = "2021"
publish = false

[dependencies]
bevy = { version = "=0.5.0", default-features = false, features = ["render"] }
bevy_input = "=0.5.0"
pin-project-internal = "=0.4.30"
