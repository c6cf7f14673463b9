[package]
name = "hazardflow"
version = "0.1.0"
edition = "2021"
publish = false

[dependencies]
thiserror = "=1.0.69"
itertools = "=0.15.0"
