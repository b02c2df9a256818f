[package]
name = "gt-core"
version = "0.1.0"
edition = "2021"
publish = false

[dependencies]
pyo3 = { version = "0.22.6", default-features = false }
rand = "0.9"
rand_chacha = "0.9"
rayon = "1"
rustc-hash = "2"
thiserror = "2"
