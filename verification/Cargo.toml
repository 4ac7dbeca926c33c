[package]
name = "chart_trends"
version = "0.1.0"
edition = "2021"
publish = false

[dependencies]
rust_ti = "*"
pyo3 = "*"
