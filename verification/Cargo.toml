[package]
name = "chess_ai"
version = "0.1.0"
edition = "2021"
publish = false

[dependencies]
chess = "3"
rayon = "1"
dashmap = "*"
sdl2 = { version = "*", features = ["image", "gfx"] }
