[package]
name = "raytracer"
version = "0.1.0"
edition = "2021"
publish = false

[dependencies]
clap = { version = "4", features = ["derive"] }
image = { version = "0.25", default-features = false, features = ["png"] }
indicatif = { version = "0.17", features = ["rayon"] }
rand = "0.9"
rayon = "1"
serde = { version = "1", features = ["derive"] }
serde_yaml = "0.9"
