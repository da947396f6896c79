[package]
name = "rpki_manifest"
version = "0.1.0"
edition = "2021"
publish = false

[dependencies]
rpki = { version = "=0.18.6", features = ["repository"] }
bcder = "=0.7.7"
bytes = "=1.12.1"
chrono = "=0.4.45"
num-bigint = "=0.4.8"
pyo3 = { version = "=0.29.3", features = ["num-bigint", "chrono"] }
