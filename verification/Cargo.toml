[package]
name = "doctree"
version = "0.1.0"
edition = "2021"
publish = false

[dependencies]
pulldown-cmark = { version = "*", default-features = false }
comrak = { version = "*", default-features = false }
