[package]
name = "tile_grid"
version = "0.1.0"
edition = "2021"
publish = false

[dependencies]
rand = "0.5"
sdl2 = { version = "0.32", features = ["ttf"] }
