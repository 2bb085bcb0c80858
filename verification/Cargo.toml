[package]
name = "ecs_gui"
version = "0.1.0"
edition = "2021"
publish = false

[dependencies]
specs = { version = "*", default-features = false }
sdl2 = { version = "*", default-features = false }
