[package]
name = "snowfall"
version = "0.1.0"
edition = "2021"
publish = false

[dependencies]
glam = "=0.34.2"
serde = { version = "=1.0.229", features = ["derive"] }
serde_yaml = "=0.9.34"
rand = "=0.8.8"
clap = { version = "=4.6.7", features = ["derive"] }
handlebars = "*"
