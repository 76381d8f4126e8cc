[package]
name = "raytracer"
version = "0.1.0"
edition = "2021"
publish = false

[dependencies]
kd-tree = "*"
rand = "0.8"
typenum = "1"
