[package]
name = "uvc"
version = "0.1.0"
edition = "2021"
publish = false

[dependencies]
libc = "0.2"
numpy = "0.25"
pyo3 = { version = "0.25", features = ["extension-module"] }
