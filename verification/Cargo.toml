[package]
name = "tracer"
version = "0.1.0"
edition = "2021"
publish = false

[dependencies]
rmp = "0.8"
pyo3 = { version = "0.20", features = ["abi3-py37"] }

[dev-dependencies]
rmpv = "1"
