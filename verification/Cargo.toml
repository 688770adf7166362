[package]
name = "grid_sim"
version = "0.1.0"
edition = "2021"
publish = false

[dependencies]
ndarray = { version = "0.15", features = ["rayon"] }
rayon = "1"
