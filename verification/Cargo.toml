[package]
name = "mdbook_d2_png"
version = "0.1.0"
edition = "2021"
publish = false

[dependencies]
anyhow = "=1.0.104"
base64 = "=0.23.1"
clap = { version = "=4.6.7", features = ["derive"] }
log = "=0.4.34"
mdbook = { version = "=0.4.52", default-features = false }
pulldown-cmark = "=0.13.4"
pulldown-cmark-to-cmark = "=23.0.0"
rayon = "=1.12.0"
semver = "=1.0.28"
serde = { version = "=1.0.229", features = ["derive"] }
serde_json = "=1.0.151"
wait-timeout = "=0.2.1"
