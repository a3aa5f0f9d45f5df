[package]
name = "kmeans"
version = "0.1.0"
edition = "2021"
publish = false

[dependencies]
ndarray = "0.16"
csv = "1"
