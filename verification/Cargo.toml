[package]
name = "strange_attractors"
version = "0.1.0"
edition = "2021"
publish = false

[dependencies]
image = { version = "=0.24.9", default-features = false, features = ["png"] }
minifb = "0.25"
rand = "=0.8.8"
