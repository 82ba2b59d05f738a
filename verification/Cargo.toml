[package]
name = "reef_infer"
version = "1.0.0"
edition = "2021"
publish = false

[dependencies]
flatbuffers = "*"
flexbuffers = "*"
nusb = { version = "*", features = ["tokio"] }
pyo3 = { version = "*", features = ["abi3-py39", "extension-module"] }
serde = "*"
tokio = { version = "*", features = ["macros", "rt-multi-thread", "time"] }
tracing = "*"
tracing-subscriber = { version = "*", features = ["env-filter"] }
