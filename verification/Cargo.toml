[package]
name = "raycaster"
version = "0.1.0"
edition = "2021"
publish = false

[dependencies]
zip = { version = "*", default-features = false, features = ["deflate"] }
anyhow = "*"
minifb = "*"
rodio = "*"
quick-xml = "*"
