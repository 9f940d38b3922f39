[package]
name = "emmy_noether"
version = "0.1.0"
edition = "2021"
publish = false

[dependencies]
petgraph = "0.6"
rand = "0.8"
rand_distr = "0.4"
rustfft = "6"
pyo3 = "0.20"
