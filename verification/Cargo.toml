[package]
name = "xmem_core"
version = "0.1.0"
edition = "2021"
publish = false

[dependencies]
shared_memory = "0.12"
thiserror = "1"
cudarc = "0.11"
pyo3 = "0.20"
