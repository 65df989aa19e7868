[package]
name = "ggvtogpx"
version = "0.1.0"
edition = "2021"
publish = false

[dependencies]
anyhow = "*"
chrono = "*"
clap = "*"
encoding_rs = "*"
nom = "*"
quick-xml = "*"
roxmltree = "*"
zip = "*"
