[package]
name = "wisu"
version = "0.1.0"
edition = "2021"
publish = false

[dependencies]
anyhow = "1"
clap = { version = "4", features = ["derive"] }
colored = "*"
csv = "1"
ignore = "0.4"
indicatif = "*"
lscolors = "*"
natord = "1"
notify = "*"
ratatui = "*"
regex = "1"
serde = { version = "1", features = ["derive"] }
serde_json = "1"
serde-xml-rs = "*"
toml = "*"
url = "2"
