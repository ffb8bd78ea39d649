[package]
name = "mazegen"
version = "0.1.0"
edition = "2021"
publish = false

[dependencies]
image = { version = "=0.25.10", default-features = false, features = ["png"] }
rand = { version = "=0.10.3", features = ["unbiased"] }
