[package]
name = "rustfl"
version = "0.1.0"
edition = "2021"
publish = false

[dependencies]
fernet = "*"
rand = "*"
rand_distr = "*"
