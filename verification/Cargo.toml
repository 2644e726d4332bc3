[package]
name = "raytracer"
version = "0.1.0"
edition = "2021"
publish = false

[dependencies]
png = "*"
tobj = "*"
threadpool = "*"
ndarray = "*"
video-rs = { version = "*", features = ["ndarray"] }
