[package]
name = "pathtracer"
version = "0.1.0"
edition = "2021"

[dependencies]
rand = "0.8"
nalgebra = "0.33"
rayon = "1"
indicatif = { version = "0.17", features = ["rayon"] }
