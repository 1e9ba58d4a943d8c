[package]
name = "ungoliant"
version = "0.1.0"
edition = "2021"
publish = false

[dependencies]
snap = "1"
rayon = "1"
warc = "*"
log = "0.4"
