[package]
name = "detypstify"
version = "0.1.0"
edition = "2021"
publish = false

[dependencies]
regex = "=1.13.1"
typst = "=0.11.1"
typst-svg = "=0.11.1"
typst-assets = { version = "=0.11.1", features = ["fonts"] }
comemo = "=0.4.0"
ttf-parser = "=0.20.0"
