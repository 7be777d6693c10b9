[package]
name = "modlet"
version = "0.1.0"
edition = "2021"
publish = false

[dependencies]
quick-xml = "=0.30.0"
rayon = "=1.12.0"
