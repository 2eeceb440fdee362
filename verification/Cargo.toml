[package]
name = "h7_display"
version = "0.1.0"
edition = "2021"
publish = false

[dependencies]
embedded-graphics = "*"
embedded-graphics-core = "*"
profont = "*"
sdl2 = "*"
