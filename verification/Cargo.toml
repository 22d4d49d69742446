[package]
name = "turndown"
version = "0.1.0"
edition = "2021"
publish = false

[dependencies]
regex = "=1.13.1"
html5ever = "=0.39.0"
markup5ever_rcdom = "=0.39.0"
