[package]
name = "angulus"
version = "0.1.0"
edition = "2021"
publish = false

[dependencies]
libm = "=0.2.16"
rand = "0.8"
serde = "1"
