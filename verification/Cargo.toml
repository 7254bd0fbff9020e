[package]
name = "fim"
version = "0.1.0"
edition = "2021"
publish = false

[dependencies]
gl = "*"
glam = "*"
sdl2 = "*"
font-kit = "*"
freetype-rs = "*"
