[package]
name = "tetris"
version = "0.1.0"
edition = "2021"
publish = false

[dependencies]
rand = "0.6"
gfx-hal = "0.1"
gfx-backend-metal = "0.1"
winit = "0.18"
image = "0.21"
wavefront_obj = "5.1"
sdl2 = "0.32"
