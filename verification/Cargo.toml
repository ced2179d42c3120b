[package]
name = "colophon"
version = "0.1.0"
edition = "2021"
publish = false

[dependencies]
fig = "=2.5.3"
