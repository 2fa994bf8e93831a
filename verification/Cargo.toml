[package]
name = "doxhtml"
version = "0.1.0"
edition = "2021"
publish = false

[dependencies]
html-minifier = "*"
json = "*"
percent-encoding = "2"
rayon = "1"
roxmltree = "*"
serde = { version = "1", features = ["derive"] }
structopt = "0.3"
tera = { version = "1", default-features = false }
