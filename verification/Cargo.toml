[package]
name = "layertools"
version = "0.1.0"
edition = "2021"
publish = false

[dependencies]
anyhow = "1"
clap = { version = "3.2", features = ["cargo"] }
itertools = "0.10"
mmarinus = "0.4"
yaml-rust = "0.4"
zip = { version = "0.6", default-features = false, features = ["deflate"] }
