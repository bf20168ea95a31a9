[package]
name = "zippy_openctp"
version = "0.1.0"
edition = "2021"
publish = false

[dependencies]
arrow = { version = "53.3.0", features = ["pyarrow"] }
crossbeam-channel = "0.5"
ctp2rs = "0.1.9"
serde_json = "1"
tracing = "0.1"
pyo3 = { version = "0.22", features = ["extension-module", "abi3-py38"] }
