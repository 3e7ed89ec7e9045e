[package]
name = "fractal"
version = "0.1.0"
edition = "2021"
publish = false

[dependencies]
chrono = { version = "=0.4.45", default-features = false, features = ["clock", "std"] }
comrak = { version = "=0.59.0", default-features = false }
regex = "=1.13.1"
url = "=2.5.8"
md5 = "=0.7.0"
unicode-segmentation = "=1.13.3"
serde_json = "=1.0.154"
html2pango = "=0.6.0"
tree_magic = "=0.2.3"
rand = "=0.8.8"
ruma-identifiers = "*"
reqwest = { version = "*", default-features = false, features = ["blocking", "json"] }
