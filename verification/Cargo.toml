[package]
name = "mix"
version = "0.1.0"
edition = "2021"
publish = false

[dependencies]
tar = "0.4"
xz2 = { version = "0.1", features = ["static"] }
toml = "*"
structopt = "0.3"
dialoguer = "*"
indicatif = "*"
anyhow = "1"
