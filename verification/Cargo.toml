[package]
name = "audio_mixer"
version = "0.1.0"
edition = "2021"
publish = false

[dependencies]
lewton = "*"
sdl2 = "*"
