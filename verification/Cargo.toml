[package]
name = "bird_compiler"
version = "0.1.0"
edition = "2021"
publish = false

[dependencies]
encoding_rs = "=0.8.42"
once_cell = "=1.21.4"
pyo3 = "=0.22.6"
regex = "=1.13.1"
