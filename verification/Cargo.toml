[package]
name = "falling_sand"
version = "0.1.0"
edition = "2021"
publish = false

[dependencies]
crossbeam = "0.8"
rand = "0.8"
rand_chacha = "0.3"
clap = { version = "4", features = ["derive"] }
bmp-rust = "*"
winit = "0.29"
softbuffer = "0.4"
pixels = "*"
