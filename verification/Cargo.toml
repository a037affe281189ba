[package]
name = "analytic_engine"
version = "0.1.0"
edition = "2021"
publish = false

[dependencies]
chrono = "=0.4.45"
ethbloom = { version = "=0.14.1", default-features = false }
