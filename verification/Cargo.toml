[package]
name = "fourttyswipe"
version = "0.1.0"
edition = "2021"
publish = false

[dependencies]
drm = "0.14"
libc = "0.2"
x11rb = { version = "0.13", features = ["shm"] }
