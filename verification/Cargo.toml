[package]
name = "markcomp"
version = "0.1.0"
edition = "2021"
publish = false

[dependencies]
pulldown-cmark = { version = "*", default-features = false }
serde_yaml = "*"
syntect = { version = "*", default-features = false, features = ["parsing", "default-syntaxes", "default-themes", "html", "regex-fancy", "dump-load"] }
tinyvec = { version = "*", default-features = false, features = ["alloc"] }
anyhow = "*"
clap = { version = "*", features = ["derive"] }
fs-err = "*"
walkdir = "*"
jiff = "*"
rayon = "*"
foldhash = "*"
