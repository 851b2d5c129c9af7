[package]
name = "knotty_cam"
version = "0.1.0"
edition = "2021"
publish = false

[dependencies]
embedded-graphics = "*"
minifb = "*"
v4l = "*"
