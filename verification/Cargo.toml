[package]
name = "mhrice"
version = "0.1.0"
edition = "2021"
publish = false

[dependencies]
miniz_oxide = "*"
regex = "*"
serde = { version = "*", features = ["derive"] }
serde_json = "*"
rayon = "*"
