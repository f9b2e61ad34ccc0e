[package]
name = "hnefatafl"
version = "0.1.0"
edition = "2021"
publish = false

[dependencies]
easy-ml = "*"
rand = "0.8"
rayon = "1"
clap = { version = "4", features = ["derive"] }
rustyline = "9"
serde = { version = "1", features = ["derive"] }
toml = "0.8"
