[package]
name = "pytest_rs_core"
version = "0.1.0"
edition = "2021"
publish = false

[dependencies]
libc = "0.2"
pyo3 = { version = "0.27", features = ["abi3"] }
serde = { version = "1", features = ["derive"] }
serde_json = "1"
