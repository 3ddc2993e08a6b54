[package]
name = "fractal_render"
version = "0.1.0"
edition = "2021"
publish = false

[dependencies]
image = "0.24"
nalgebra = "0.32"
num_cpus = "1"
palette = "0.6"
