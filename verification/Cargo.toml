[package]
name = "hotreload_assets"
version = "0.1.0"
edition = "2021"
publish = false

[dependencies]
gl = "*"
notify = "*"
sdl2 = "*"
egui = "*"
egui_sdl2_gl = "*"
