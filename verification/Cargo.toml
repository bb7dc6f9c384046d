[package]
name = "pag"
version = "0.1.0"
edition = "2021"
publish = false

[dependencies]
pest = "2"
anyhow = "1"
lazy_static = "1"
