[package]
name = "pleco_engine"
version = "0.1.0"
edition = "2021"
publish = false

[dependencies]
rand = "0.8"
rayon = "1"
num_cpus = "1"
lazy_static = "1"
