[package]
name = "gws"
version = "0.1.0"
edition = "2021"
publish = false

[dependencies]
coord_2d = "*"
line_2d = "*"
