[package]
name = "beyond_engine"
version = "0.1.0"
edition = "2021"
publish = false

[dependencies]
rstar = "0.12"
rustc-hash = "1.1"
hecs = "0.10"
nalgebra = { version = "0.32", default-features = false, features = ["std"] }
thiserror = "1"
glium = "0.34"
winit = "0.29"
image = { version = "0.24", default-features = false, features = ["png"] }
ahash = "0.8"
ghost = "0.1"
