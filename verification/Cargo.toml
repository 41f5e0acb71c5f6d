[package]
name = "bspatch"
version = "0.1.0"
edition = "2021"
publish = false

[dependencies]
bzip2 = "*"
hex = "*"
md-5 = "*"
serde = "*"
