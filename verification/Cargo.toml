[package]
name = "kalax"
version = "0.1.0"
edition = "2021"
publish = false

[dependencies]
polars = { version = "=0.55.2", default-features = false }
rayon = "=1.12.0"
pyo3 = "=0.30.1"
numpy = "=0.30.0"
