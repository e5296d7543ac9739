[package]
name = "rust_chip8_opengl"
version = "0.1.0"
edition = "2021"
publish = false

[dependencies]
rand = "0.8"
clap = { version = "*", features = ["derive"] }
crossterm = "*"
gl = "*"
glfw = "*"
rodio = "*"
