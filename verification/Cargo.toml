[package]
name = "md_url_extractor"
version = "0.1.0"
edition = "2021"
publish = false

[dependencies]
url = "2"
pulldown-cmark = "*"
clap = { version = "4", features = ["derive"] }
csv = "1"
indicatif = "*"
rayon = "1"
walkdir = "2"
