[package]
name = "wisp"
version = "0.1.0"
edition = "2021"
publish = false

[dependencies]
naga = { version = "*", features = ["wgsl-in"] }
evalexpr = "*"
bytemuck = "*"
thiserror = "*"
half = "*"
rustfft = "*"
