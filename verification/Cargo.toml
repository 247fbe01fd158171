[package]
name = "kenken_explorer"
version = "0.1.0"
edition = "2021"
publish = false

[dependencies]
anyhow = "1.0.104"
clap = { version = "4.5.61", features = ["derive"] }
rand = "0.9.5"
rand_chacha = "0.9.0"
rayon = "1.11.0"
serde = { version = "1.0.229", features = ["derive"] }
serde_json = "1.0.154"
toml = "0.9.8"
