[package]
name = "pyq"
version = "0.1.0"
edition = "2021"
publish = false

[dependencies]
clap = { version = "4", features = ["derive"] }
pyo3 = { version = "0.25", features = ["auto-initialize"] }
