[package]
name = "satsim"
version = "0.1.0"
edition = "2021"
publish = false

[dependencies]
petgraph = "0.6"
rand = "0.8"
nalgebra = "0.32"
json = "0.12"
toml = "0.8"
