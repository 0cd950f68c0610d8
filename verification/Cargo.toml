[package]
name = "norm_fit"
version = "0.1.0"
edition = "2021"
publish = false

[dependencies]
rand = "=0.8.8"

[dev-dependencies]
itertools-num = "=0.1.3"
