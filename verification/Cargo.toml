[package]
name = "rmreader"
version = "0.1.0"
edition = "2021"
publish = false

[dependencies]
anyhow = "1"
serde = { version = "1", features = ["derive"] }
serde_json = "1"
toml = "0.8"
clap = { version = "4", features = ["derive"] }
dialoguer = "0.11"
ureq = "2"
image = { version = "0.25", default-features = false, features = ["png", "jpeg", "gif", "webp"] }
lopdf = "0.34"
scraper = "0.20"
lol_html = "1"

[dev-dependencies]
tempfile = "3"
