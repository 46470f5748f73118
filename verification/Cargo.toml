[package]
name = "campfire"
version = "0.1.0"
edition = "2021"
publish = false

[dependencies]
pulldown-cmark = "*"
slug = "*"
serde_yaml = "*"
serde = { version = "*", features = ["derive"] }
clap = "*"
tera = "*"
