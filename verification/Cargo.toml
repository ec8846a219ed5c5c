[package]
name = "particle_renderer"
version = "0.1.0"
edition = "2021"
publish = false

[dependencies]
ril = { version = "=0.10.3", default-features = false, features = ["png", "gif"] }
