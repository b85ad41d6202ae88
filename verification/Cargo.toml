[package]
name = "bloggen"
version = "0.1.0"
edition = "2021"
publish = false

[dependencies]
pulldown-cmark = "*"
chrono = "*"
image = { version = "*", default-features = false, features = ["png", "jpeg", "webp"] }
rayon = "*"
anyhow = "*"
thiserror = "*"
