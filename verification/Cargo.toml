[package]
name = "engagic_core"
version = "0.1.0"
edition = "2021"
publish = false

[dependencies]
poppler-rs = "*"
pyo3 = "*"
regex = "*"
reqwest = { version = "*", features = ["blocking"] }
thiserror = "*"
tracing = "*"
tracing-subscriber = "*"
unicode-normalization = "*"
urlencoding = "*"
