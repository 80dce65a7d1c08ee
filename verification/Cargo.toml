[package]
name = "htmler"
version = "0.1.0"
edition = "2021"
publish = false

[dependencies]
ego-tree = "=0.11.0"
html5ever = "=0.39.0"
scraper = "=0.27.0"
tendril = "=0.5.1"
reqwest = { version = "=0.13.5", default-features = false }
