[package]
name = "rsbrowse"
version = "0.1.0"
edition = "2021"

[dependencies]
anyhow = "1"
clap = { version = "4", features = ["derive"] }
cursive = "*"
indicatif = "*"
lazy_static = "1"
log = "0.4"
rayon = "1"
rustdoc-types = "*"
serde_json = "1"
tempfile = "3"
