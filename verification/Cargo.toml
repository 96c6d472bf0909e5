[package]
name = "aligned_nearest_neighbor"
version = "0.1.0"
edition = "2021"
publish = false

[dependencies]
bio = "*"
rayon = "*"
clap = { version = "*", features = ["derive"] }
indicatif = { version = "*", features = ["rayon"] }
