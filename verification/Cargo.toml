[package]
name = "ropes"
version = "0.1.0"
edition = "2021"
publish = false

[dependencies]
slab = "0.4"
rand = "0.8"
glam = "0.20"
ggez = "0.7"
enum-map = "2"
