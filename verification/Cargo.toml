[package]
name = "angolmois"
version = "2.0.0"
edition = "2021"
publish = false

[dependencies]
libc = "=0.2.191"
sdl1_2-rs = "=0.3.7"
sdl_image = "=0.3.8"
