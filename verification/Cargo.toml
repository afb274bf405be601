[package]
name = "softraster"
version = "0.1.0"
edition = "2021"
publish = false

[dependencies]
float-cmp = "*"
image = { version = "*", default-features = false, features = ["png"] }
sdl2 = "*"
