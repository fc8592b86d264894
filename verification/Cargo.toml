[package]
name = "chip8"
version = "0.1.0"
edition = "2021"
publish = false

[dependencies]
rand = "0.8"
raylib = "*"
async-std = "1"
futures = "0.3"
hertz = "*"
