[package]
name = "path_tracer"
version = "0.1.0"
edition = "2021"
publish = false

[dependencies]
minifb = "0.28"
rand = "0.9"
rayon = "1"
