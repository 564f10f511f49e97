[package]
name = "pikaxe"
version = "0.1.0"
edition = "2021"
publish = false

[dependencies]
gltf = { version = "*", default-features = false, features = ["import", "utils", "names"] }
nalgebra = "*"
clap = { version = "*", features = ["derive"] }
