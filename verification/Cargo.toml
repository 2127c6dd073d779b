[package]
name = "ha-ndarray"
version = "0.1.0"
edition = "2021"
publish = false

[dependencies]
lazy_static = "1"
num_cpus = "1"
ocl = "0.19"
rand = "0.8"
rayon = "1"
smallvec = "1"
transpose = "0.2"
