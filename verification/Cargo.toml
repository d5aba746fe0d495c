[package]
name = "rigid_core"
version = "0.1.0"
edition = "2021"
publish = false

[dependencies]
bit-vec = "=0.6.3"
parry3d = "=0.3.0"
nalgebra = "=0.25.4"
rustc-hash = "=1.1.0"
