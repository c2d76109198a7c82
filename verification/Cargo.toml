[package]
name = "srs_inference"
version = "0.1.0"
edition = "2021"
publish = false

[dependencies]
babycat = "*"
hound = "*"
mlx-rs = "*"
thiserror = "*"
