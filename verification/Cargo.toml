[package]
name = "ray_pipeline"
version = "0.1.0"
edition = "2021"
publish = false

[dependencies]
anyhow = "*"
clap = "*"
console = "*"
indicatif = "*"
rayon = "*"
